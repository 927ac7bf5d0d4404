//! The JSON form of an aggregate report, with a verified round trip.
//!
//! The document is an array of one object per outcome, in report order, each
//! carrying the target id, the status with its exit code or reason, and the
//! duration. The emitter and the parser are both verified against the same
//! specification-level grammar, and parsing an emitted document is proved to
//! reconstruct the same records.

use vstd::prelude::*;

use crate::aggregate::AggregateReport;
use crate::numeral::dec_rep;
use crate::numeral::digit_val;
use crate::numeral::digits_val;
use crate::numeral::is_digit_char;
use crate::numeral::lemma_dec_rep_digits;
use crate::numeral::lemma_dec_rep_val;
use crate::numeral::push_decimal;
use crate::outcome::ExecutionOutcome;
use crate::text::chars_to_string;
use crate::text::push_literal;
use crate::text::string_chars;
use crate::outcome::ExecutionStatus;

verus! {

/// What the JSON document says about one outcome's status. The captured
/// output is not part of the document, so the record keeps id, status and
/// duration only.
#[derive(Debug, PartialEq, Eq)]
pub struct OutcomeRecord {
    pub target_id: String,
    pub status: ExecutionStatus,
    pub duration_ms: u64,
}

/// Specification-level value of a status as the document carries it.
pub enum StatusModel {
    Completed { exit_code: i32 },
    TimedOut,
    LaunchFailed { reason: Seq<char> },
}

/// Specification-level value of one record of the document.
pub struct RecordModel {
    pub target_id: Seq<char>,
    pub status: StatusModel,
    pub duration_ms: u64,
}

pub open spec fn status_model(st: ExecutionStatus) -> StatusModel {
    match st {
        ExecutionStatus::Completed { exit_code } => StatusModel::Completed { exit_code },
        ExecutionStatus::TimedOut => StatusModel::TimedOut,
        ExecutionStatus::LaunchFailed { reason } => StatusModel::LaunchFailed {
            reason: reason@,
        },
    }
}

/// The record an outcome contributes to the document.
pub open spec fn outcome_record(o: ExecutionOutcome) -> RecordModel {
    RecordModel {
        target_id: o.target_id@,
        status: status_model(o.status),
        duration_ms: o.duration_ms,
    }
}

impl OutcomeRecord {
    pub open spec fn model(&self) -> RecordModel {
        RecordModel {
            target_id: self.target_id@,
            status: status_model(self.status),
            duration_ms: self.duration_ms,
        }
    }
}

/// How one character of a string value is written in the document: quote and
/// backslash get a backslash in front, everything else stands as it is.
pub open spec fn escape_one(c: char) -> Seq<char> {
    if c == '"' || c == '\\' {
        seq!['\\', c]
    } else {
        seq![c]
    }
}

/// How a whole string value is written in the document.
pub open spec fn escape_chars(v: Seq<char>) -> Seq<char>
    decreases v.len(),
{
    if v.len() == 0 {
        Seq::<char>::empty()
    } else {
        escape_one(v.first()) + escape_chars(v.drop_first())
    }
}

/// The signed decimal representation of `e`.
pub open spec fn int_rep(e: int) -> Seq<char> {
    if e < 0 {
        seq!['-'] + dec_rep((-e) as nat)
    } else {
        dec_rep(e as nat)
    }
}

/// The status part of one record's text, from the opening keyword up to the
/// character before `,"duration_ms":`.
pub open spec fn json_status(st: StatusModel) -> Seq<char> {
    match st {
        StatusModel::Completed { exit_code } => "completed\",\"exit_code\":"@ + int_rep(
            exit_code as int,
        ),
        StatusModel::TimedOut => "timed_out\""@,
        StatusModel::LaunchFailed { reason } => "launch_failed\",\"reason\":\""@ + escape_chars(
            reason,
        ) + seq!['"'],
    }
}

/// The text of one record of the document.
pub open spec fn json_record(r: RecordModel) -> Seq<char> {
    "{\"target_id\":\""@ + escape_chars(r.target_id) + "\",\"status\":\""@ + json_status(r.status)
        + ",\"duration_ms\":"@ + dec_rep(r.duration_ms as nat) + seq!['}']
}

/// The text of one or more records, separated by commas.
pub open spec fn json_records(rs: Seq<RecordModel>) -> Seq<char>
    decreases rs.len(),
{
    if rs.len() <= 1 {
        json_record(rs.first())
    } else {
        json_record(rs.first()) + seq![','] + json_records(rs.drop_first())
    }
}

/// The whole document for the records `rs`.
pub open spec fn json_report(rs: Seq<RecordModel>) -> Seq<char> {
    if rs.len() == 0 {
        "[]"@
    } else {
        seq!['['] + json_records(rs) + seq![']']
    }
}

proof fn lemma_escape_snoc(v: Seq<char>, c: char)
    ensures
        escape_chars(v.push(c)) == escape_chars(v) + escape_one(c),
    decreases v.len(),
{
    if v.len() == 0 {
        assert(v.push(c).drop_first() =~= Seq::<char>::empty());
        assert(v.push(c).first() == c);
        assert(escape_chars(Seq::<char>::empty()) == Seq::<char>::empty());
        assert(escape_chars(v.push(c)) == escape_one(c) + escape_chars(Seq::<char>::empty()));
        assert(escape_chars(v.push(c)) =~= escape_chars(v) + escape_one(c));
    } else {
        assert(v.push(c).drop_first() =~= v.drop_first().push(c));
        lemma_escape_snoc(v.drop_first(), c);
        assert(escape_one(v.first()) + (escape_chars(v.drop_first()) + escape_one(c)) =~= (
        escape_one(v.first()) + escape_chars(v.drop_first())) + escape_one(c));
    }
}

/// Appends the escaped form of `s`.
fn push_escaped(out: &mut Vec<char>, s: &str)
    ensures
        final(out)@ == old(out)@ + escape_chars(s@),
{
    let n = s.unicode_len();
    let mut i: usize = 0;
    while i < n
        invariant
            n == s@.len(),
            0 <= i <= n,
            out@ == old(out)@ + escape_chars(s@.take(i as int)),
        decreases n - i,
    {
        let c = s.get_char(i);
        if c == '"' || c == '\\' {
            out.push('\\');
            out.push(c);
        } else {
            out.push(c);
        }
        proof {
            lemma_escape_snoc(s@.take(i as int), s@[i as int]);
            assert(s@.take(i + 1) =~= s@.take(i as int).push(s@[i as int]));
            assert(old(out)@ + escape_chars(s@.take(i + 1)) =~= (old(out)@ + escape_chars(
                s@.take(i as int),
            )) + escape_one(s@[i as int]));
        }
        i = i + 1;
    }
    assert(s@.take(n as int) =~= s@);
}

/// Appends the signed decimal representation of `e`.
fn push_int(out: &mut Vec<char>, e: i32)
    ensures
        final(out)@ == old(out)@ + int_rep(e as int),
{
    if e < 0 {
        out.push('-');
        let m: u64 = (-(e as i64)) as u64;
        push_decimal(out, m);
        assert(old(out)@ + int_rep(e as int) =~= old(out)@.push('-') + dec_rep(m as nat));
    } else {
        push_decimal(out, e as u64);
    }
}

/// Appends the status part of one record.
fn push_status(out: &mut Vec<char>, st: &ExecutionStatus)
    ensures
        final(out)@ == old(out)@ + json_status(status_model(*st)),
{
    match st {
        ExecutionStatus::Completed { exit_code } => {
            push_literal(out, "completed\",\"exit_code\":");
            push_int(out, *exit_code);
            assert(old(out)@ + json_status(status_model(*st)) =~= (old(out)@
                + "completed\",\"exit_code\":"@) + int_rep(*exit_code as int));
        },
        ExecutionStatus::TimedOut => {
            push_literal(out, "timed_out\"");
        },
        ExecutionStatus::LaunchFailed { reason } => {
            push_literal(out, "launch_failed\",\"reason\":\"");
            push_escaped(out, reason.as_str());
            out.push('"');
            assert(old(out)@ + json_status(status_model(*st)) =~= ((old(out)@
                + "launch_failed\",\"reason\":\""@) + escape_chars(reason@)).push('"'));
        },
    }
}

/// Appends the record for one outcome's id, status and duration.
fn push_record(out: &mut Vec<char>, target_id: &String, st: &ExecutionStatus, duration_ms: u64)
    ensures
        final(out)@ == old(out)@ + json_record(
            RecordModel {
                target_id: target_id@,
                status: status_model(*st),
                duration_ms: duration_ms,
            },
        ),
{
    push_literal(out, "{\"target_id\":\"");
    push_escaped(out, target_id.as_str());
    push_literal(out, "\",\"status\":\"");
    push_status(out, st);
    push_literal(out, ",\"duration_ms\":");
    push_decimal(out, duration_ms);
    out.push('}');
    proof {
        let r = RecordModel {
            target_id: target_id@,
            status: status_model(*st),
            duration_ms: duration_ms,
        };
        assert(old(out)@ + json_record(r) =~= (((((old(out)@ + "{\"target_id\":\""@)
            + escape_chars(target_id@)) + "\",\"status\":\""@) + json_status(status_model(*st)))
            + ",\"duration_ms\":"@ + dec_rep(duration_ms as nat)).push('}'));
    }
}

proof fn lemma_json_records_snoc(rs: Seq<RecordModel>, r: RecordModel)
    requires
        rs.len() >= 1,
    ensures
        json_records(rs.push(r)) == json_records(rs) + seq![','] + json_record(r),
    decreases rs.len(),
{
    if rs.len() == 1 {
        assert(rs.push(r).drop_first() =~= seq![r]);
        assert(rs.push(r).first() == rs.first());
        assert(json_records(seq![r]) == json_record(seq![r].first()));
        assert(seq![r].first() == r);
        assert(json_record(rs.first()) + seq![','] + json_record(r) =~= json_record(rs.first())
            + seq![','] + json_record(r));
    } else {
        assert(rs.push(r).drop_first() =~= rs.drop_first().push(r));
        lemma_json_records_snoc(rs.drop_first(), r);
        assert(json_record(rs.first()) + seq![','] + (json_records(rs.drop_first()) + seq![',']
            + json_record(r)) =~= (json_record(rs.first()) + seq![','] + json_records(
            rs.drop_first(),
        )) + seq![','] + json_record(r));
        assert(json_records(rs.push(r)) == json_record(rs.first()) + seq![','] + json_records(
            rs.drop_first().push(r),
        ));
    }
}

/// Consumes `lit` at `pos`, or nothing.
pub open spec fn expect_lit(s: Seq<char>, pos: int, lit: Seq<char>) -> Option<int> {
    if 0 <= pos && pos + lit.len() <= s.len() && s.subrange(pos, pos + lit.len() as int) == lit {
        Some(pos + lit.len() as int)
    } else {
        None
    }
}

/// Consumes a string value up to and including its closing quote, undoing
/// the escapes the emitter writes; anything else after a backslash is
/// rejected.
pub open spec fn parse_string_from(s: Seq<char>, pos: int) -> Option<(Seq<char>, int)>
    decreases s.len() - pos,
{
    if pos < 0 || pos >= s.len() {
        None
    } else if s[pos] == '"' {
        Some((Seq::<char>::empty(), pos + 1))
    } else if s[pos] == '\\' {
        if pos + 1 < s.len() && (s[pos + 1] == '"' || s[pos + 1] == '\\') {
            match parse_string_from(s, pos + 2) {
                Some((v, p)) => Some((seq![s[pos + 1]] + v, p)),
                None => None,
            }
        } else {
            None
        }
    } else {
        match parse_string_from(s, pos + 1) {
            Some((v, p)) => Some((seq![s[pos]] + v, p)),
            None => None,
        }
    }
}

/// Length of the run of decimal digit characters starting at `pos`.
pub open spec fn digit_run_len(s: Seq<char>, pos: int) -> int
    decreases s.len() - pos,
{
    if 0 <= pos < s.len() && is_digit_char(s[pos]) {
        1 + digit_run_len(s, pos + 1)
    } else {
        0
    }
}

/// Consumes an unsigned decimal number; rejects one that does not fit u64.
pub open spec fn parse_number(s: Seq<char>, pos: int) -> Option<(u64, int)> {
    let k = digit_run_len(s, pos);
    if k == 0 {
        None
    } else {
        let val = digits_val(s.subrange(pos, pos + k));
        if val <= u64::MAX {
            Some((val as u64, pos + k))
        } else {
            None
        }
    }
}

/// Consumes a decimal number with an optional sign; rejects one that does
/// not fit i32.
pub open spec fn parse_int(s: Seq<char>, pos: int) -> Option<(i32, int)> {
    if 0 <= pos < s.len() && s[pos] == '-' {
        match parse_number(s, pos + 1) {
            Some((v, p)) => if 0 < v <= 0x8000_0000u64 {
                Some(((0 - v as int) as i32, p))
            } else {
                None
            },
            None => None,
        }
    } else {
        match parse_number(s, pos) {
            Some((v, p)) => if v <= 0x7fff_ffffu64 {
                Some((v as i32, p))
            } else {
                None
            },
            None => None,
        }
    }
}

/// Consumes the status part of a record, from the opening keyword up to the
/// character before `,"duration_ms":`.
pub open spec fn parse_status(s: Seq<char>, pos: int) -> Option<(StatusModel, int)> {
    if expect_lit(s, pos, "completed\",\"exit_code\":"@) is Some {
        match parse_int(s, expect_lit(s, pos, "completed\",\"exit_code\":"@)->0) {
            Some((e, p2)) => Some((StatusModel::Completed { exit_code: e }, p2)),
            None => None,
        }
    } else if expect_lit(s, pos, "timed_out\""@) is Some {
        Some((StatusModel::TimedOut, expect_lit(s, pos, "timed_out\""@)->0))
    } else if expect_lit(s, pos, "launch_failed\",\"reason\":\""@) is Some {
        match parse_string_from(s, expect_lit(s, pos, "launch_failed\",\"reason\":\""@)->0) {
            Some((v, p2)) => Some((StatusModel::LaunchFailed { reason: v }, p2)),
            None => None,
        }
    } else {
        None
    }
}

/// Consumes one record of the document.
pub open spec fn parse_record(s: Seq<char>, pos: int) -> Option<(RecordModel, int)> {
    match expect_lit(s, pos, "{\"target_id\":\""@) {
        None => None,
        Some(p1) => match parse_string_from(s, p1) {
            None => None,
            Some((id, p2)) => match expect_lit(s, p2, ",\"status\":\""@) {
                None => None,
                Some(p3) => match parse_status(s, p3) {
                    None => None,
                    Some((st, p4)) => match expect_lit(s, p4, ",\"duration_ms\":"@) {
                        None => None,
                        Some(p5) => match parse_number(s, p5) {
                            None => None,
                            Some((d, p6)) => match expect_lit(s, p6, "}"@) {
                                None => None,
                                Some(p7) => Some(
                                    (RecordModel { target_id: id, status: st, duration_ms: d }, p7),
                                ),
                            },
                        },
                    },
                },
            },
        },
    }
}

/// Consumes one or more comma-separated records and the closing bracket.
pub open spec fn parse_records(s: Seq<char>, pos: int) -> Option<(Seq<RecordModel>, int)>
    decreases s.len() - pos,
{
    match parse_record(s, pos) {
        None => None,
        Some((r, p)) => if !(pos < p && p + 1 <= s.len()) {
            None
        } else if expect_lit(s, p, ","@) is Some {
            match parse_records(s, p + 1) {
                Some((rs, p2)) => Some((seq![r] + rs, p2)),
                None => None,
            }
        } else if expect_lit(s, p, "]"@) is Some {
            Some((seq![r], p + 1))
        } else {
            None
        },
    }
}

/// Parses a whole document; trailing text is rejected.
pub open spec fn parse_report(s: Seq<char>) -> Option<Seq<RecordModel>> {
    if s.len() == 2 && expect_lit(s, 0, "[]"@) is Some {
        Some(Seq::<RecordModel>::empty())
    } else if expect_lit(s, 0, "["@) is Some {
        match parse_records(s, 1) {
            Some((rs, p)) => if p == s.len() {
                Some(rs)
            } else {
                None
            },
            None => None,
        }
    } else {
        None
    }
}

/// Decides `expect_lit` at `pos`.
fn match_lit(v: &Vec<char>, pos: usize, lit: &str) -> (r: Option<usize>)
    ensures
        r matches Some(p) ==> expect_lit(v@, pos as int, lit@) == Some(p as int) && pos <= p
            <= v@.len(),
        r is None ==> expect_lit(v@, pos as int, lit@) is None,
{
    let n = lit.unicode_len();
    let vn = v.len();
    if pos > vn || n > vn - pos {
        return None;
    }
    let mut k: usize = 0;
    while k < n
        invariant
            n == lit@.len(),
            vn == v@.len(),
            pos + n <= vn,
            0 <= k <= n,
            forall|m: int| 0 <= m < k ==> v@[pos + m] == lit@[m],
        decreases n - k,
    {
        let c = lit.get_char(k);
        if v[pos + k] != c {
            proof {
                assert(v@.subrange(pos as int, pos + n as int)[k as int] == v@[pos + k]);
            }
            return None;
        }
        k = k + 1;
    }
    assert(v@.subrange(pos as int, pos + n as int) =~= lit@);
    Some(pos + n)
}

/// Decides `parse_string_from` at `pos`, collecting the unescaped value.
fn scan_string(v: &Vec<char>, pos: usize) -> (r: Option<(Vec<char>, usize)>)
    ensures
        r matches Some(wp) ==> parse_string_from(v@, pos as int) == Some((wp.0@, wp.1 as int))
            && pos < wp.1 <= v@.len(),
        r is None ==> parse_string_from(v@, pos as int) is None,
{
    if pos >= v.len() {
        return None;
    }
    let mut acc: Vec<char> = Vec::new();
    let mut cur: usize = pos;
    loop
        invariant
            pos <= cur <= v@.len(),
            (parse_string_from(v@, pos as int) is Some) == (parse_string_from(
                v@,
                cur as int,
            ) is Some),
            parse_string_from(v@, cur as int) matches Some(tp) ==> parse_string_from(
                v@,
                pos as int,
            ) == Some((acc@ + tp.0, tp.1)),
        decreases v@.len() - cur,
    {
        if cur >= v.len() {
            return None;
        }
        let c = v[cur];
        if c == '"' {
            proof {
                assert(parse_string_from(v@, cur as int) == Some(
                    (Seq::<char>::empty(), cur + 1 as int),
                ));
                assert(acc@ + Seq::<char>::empty() =~= acc@);
            }
            return Some((acc, cur + 1));
        } else if c == '\\' {
            if cur + 1 >= v.len() {
                return None;
            }
            let c2 = v[cur + 1];
            if !(c2 == '"' || c2 == '\\') {
                return None;
            }
            let ghost acc0 = acc@;
            acc.push(c2);
            proof {
                if parse_string_from(v@, cur + 2) is Some {
                    let tp = parse_string_from(v@, cur + 2)->0;
                    assert(parse_string_from(v@, cur as int) == Some(
                        (seq![v@[cur + 1]] + tp.0, tp.1),
                    ));
                    assert(acc0 + (seq![v@[cur + 1]] + tp.0) =~= acc@ + tp.0);
                }
            }
            cur = cur + 2;
        } else {
            let ghost acc0 = acc@;
            acc.push(c);
            proof {
                if parse_string_from(v@, cur + 1) is Some {
                    let tp = parse_string_from(v@, cur + 1)->0;
                    assert(parse_string_from(v@, cur as int) == Some(
                        (seq![v@[cur as int]] + tp.0, tp.1),
                    ));
                    assert(acc0 + (seq![v@[cur as int]] + tp.0) =~= acc@ + tp.0);
                }
            }
            cur = cur + 1;
        }
    }
}

proof fn lemma_digit_run_len_bound(s: Seq<char>, pos: int)
    requires
        0 <= pos <= s.len(),
    ensures
        0 <= digit_run_len(s, pos),
        pos + digit_run_len(s, pos) <= s.len(),
    decreases s.len() - pos,
{
    if pos < s.len() && is_digit_char(s[pos]) {
        lemma_digit_run_len_bound(s, pos + 1);
    }
}

proof fn lemma_digits_val_prefix_le(s: Seq<char>, pos: int, i: int, j: int)
    requires
        0 <= pos <= i <= j <= s.len(),
    ensures
        digits_val(s.subrange(pos, i)) <= digits_val(s.subrange(pos, j)),
    decreases j - i,
{
    if i < j {
        lemma_digits_val_prefix_le(s, pos, i, j - 1);
        assert(s.subrange(pos, j).drop_last() =~= s.subrange(pos, j - 1));
        assert(digits_val(s.subrange(pos, j)) == digits_val(s.subrange(pos, j - 1)) * 10
            + digit_val(s.subrange(pos, j).last()));
    }
}

/// The decimal value of `c`, or 10 when `c` is no digit.
fn digit_of(c: char) -> (r: u64)
    ensures
        r == digit_val(c),
{
    match c {
        '0' => 0,
        '1' => 1,
        '2' => 2,
        '3' => 3,
        '4' => 4,
        '5' => 5,
        '6' => 6,
        '7' => 7,
        '8' => 8,
        '9' => 9,
        _ => 10,
    }
}

/// Decides `parse_number` at `pos`.
fn scan_number(v: &Vec<char>, pos: usize) -> (r: Option<(u64, usize)>)
    ensures
        r matches Some(xp) ==> parse_number(v@, pos as int) == Some((xp.0, xp.1 as int)) && pos
            < xp.1 <= v@.len(),
        r is None ==> parse_number(v@, pos as int) is None,
{
    let vn = v.len();
    if pos >= vn {
        return None;
    }
    if digit_of(v[pos]) >= 10 {
        return None;
    }
    let mut cur: usize = pos;
    let mut val: u64 = 0;
    assert(v@.subrange(pos as int, pos as int) =~= Seq::<char>::empty());
    loop
        invariant
            vn == v@.len(),
            pos < vn,
            pos <= cur <= vn,
            is_digit_char(v@[pos as int]),
            digit_run_len(v@, pos as int) == (cur - pos) + digit_run_len(v@, cur as int),
            val == digits_val(v@.subrange(pos as int, cur as int)),
        decreases vn - cur,
    {
        if cur >= vn {
            proof {
                lemma_digit_run_len_bound(v@, pos + 1);
                assert(digit_run_len(v@, pos as int) >= 1);
            }
            return Some((val, cur));
        }
        let d = digit_of(v[cur]);
        if d >= 10 {
            proof {
                lemma_digit_run_len_bound(v@, pos + 1);
                assert(digit_run_len(v@, pos as int) >= 1);
            }
            return Some((val, cur));
        }
        proof {
            lemma_digit_run_len_bound(v@, cur as int);
            lemma_digit_run_len_bound(v@, cur + 1);
            assert(digit_run_len(v@, cur as int) >= 1);
        }
        let rem = (u64::MAX - d) / 10;
        proof {
            vstd::arithmetic::div_mod::lemma_fundamental_div_mod((u64::MAX - d) as int, 10);
            assert(v@.subrange(pos as int, cur + 1).drop_last() =~= v@.subrange(
                pos as int,
                cur as int,
            ));
            assert(digits_val(v@.subrange(pos as int, cur + 1)) == val * 10 + d);
        }
        if val > rem {
            proof {
                let k = digit_run_len(v@, pos as int);
                lemma_digit_run_len_bound(v@, pos as int);
                lemma_digits_val_prefix_le(v@, pos as int, cur + 1, pos + k);
                assert(digits_val(v@.subrange(pos as int, pos + k)) > u64::MAX);
            }
            return None;
        }
        val = val * 10 + d;
        cur = cur + 1;
    }
}

/// Decides `parse_int` at `pos`.
fn scan_int(v: &Vec<char>, pos: usize) -> (r: Option<(i32, usize)>)
    ensures
        r matches Some(xp) ==> parse_int(v@, pos as int) == Some((xp.0, xp.1 as int)) && pos < xp.1
            <= v@.len(),
        r is None ==> parse_int(v@, pos as int) is None,
{
    let vn = v.len();
    if pos < vn && v[pos] == '-' {
        match scan_number(v, pos + 1) {
            Some((x, p)) => if 1 <= x && x <= 0x8000_0000u64 {
                let e: i32 = (-(x as i64)) as i32;
                assert(e as int == 0 - x as int);
                Some((e, p))
            } else {
                None
            },
            None => None,
        }
    } else {
        match scan_number(v, pos) {
            Some((x, p)) => if x <= 0x7fff_ffffu64 {
                Some((x as i32, p))
            } else {
                None
            },
            None => None,
        }
    }
}

/// Decides `parse_status` at `pos`.
fn scan_status(v: &Vec<char>, pos: usize) -> (r: Option<(ExecutionStatus, usize)>)
    ensures
        r matches Some(sp) ==> parse_status(v@, pos as int) == Some(
            (status_model(sp.0), sp.1 as int),
        ) && pos < sp.1 <= v@.len(),
        r is None ==> parse_status(v@, pos as int) is None,
{
    match match_lit(v, pos, "completed\",\"exit_code\":") {
        Some(p) => match scan_int(v, p) {
            Some((e, p2)) => Some((ExecutionStatus::Completed { exit_code: e }, p2)),
            None => None,
        },
        None => match match_lit(v, pos, "timed_out\"") {
            Some(p) => {
                proof {
                    reveal_strlit("timed_out\"");
                }
                Some((ExecutionStatus::TimedOut, p))
            },
            None => match match_lit(v, pos, "launch_failed\",\"reason\":\"") {
                Some(p) => match scan_string(v, p) {
                    Some((w, p2)) => Some(
                        (ExecutionStatus::LaunchFailed { reason: chars_to_string(&w) }, p2),
                    ),
                    None => None,
                },
                None => None,
            },
        },
    }
}

/// Decides `parse_record` at `pos`.
fn scan_record(v: &Vec<char>, pos: usize) -> (r: Option<(OutcomeRecord, usize)>)
    ensures
        r matches Some(rp) ==> parse_record(v@, pos as int) == Some((rp.0.model(), rp.1 as int))
            && pos < rp.1 <= v@.len(),
        r is None ==> parse_record(v@, pos as int) is None,
{
    match match_lit(v, pos, "{\"target_id\":\"") {
        None => None,
        Some(p1) => match scan_string(v, p1) {
            None => None,
            Some((id, p2)) => match match_lit(v, p2, ",\"status\":\"") {
                None => None,
                Some(p3) => match scan_status(v, p3) {
                    None => None,
                    Some((st, p4)) => match match_lit(v, p4, ",\"duration_ms\":") {
                        None => None,
                        Some(p5) => match scan_number(v, p5) {
                            None => None,
                            Some((d, p6)) => match match_lit(v, p6, "}") {
                                None => None,
                                Some(p7) => Some(
                                    (
                                        OutcomeRecord {
                                            target_id: chars_to_string(&id),
                                            status: st,
                                            duration_ms: d,
                                        },
                                        p7,
                                    ),
                                ),
                            },
                        },
                    },
                },
            },
        },
    }
}

/// Decides `parse_records` at `pos`, collecting the records.
fn scan_records(v: &Vec<char>, pos: usize) -> (r: Option<(Vec<OutcomeRecord>, usize)>)
    ensures
        r matches Some(rp) ==> parse_records(v@, pos as int) == Some(
            (rp.0@.map_values(|x: OutcomeRecord| x.model()), rp.1 as int),
        ) && pos < rp.1 <= v@.len(),
        r is None ==> parse_records(v@, pos as int) is None,
{
    if pos > v.len() {
        return None;
    }
    let mut recs: Vec<OutcomeRecord> = Vec::new();
    let mut cur: usize = pos;
    loop
        invariant
            pos <= cur <= v@.len(),
            (parse_records(v@, pos as int) is Some) == (parse_records(v@, cur as int) is Some),
            parse_records(v@, cur as int) matches Some(t) ==> parse_records(v@, pos as int)
                == Some((recs@.map_values(|x: OutcomeRecord| x.model()) + t.0, t.1)),
        decreases v@.len() - cur,
    {
        match scan_record(v, cur) {
            None => {
                return None;
            },
            Some((rec, p)) => {
                match match_lit(v, p, ",") {
                    Some(pc) => {
                        let ghost m0 = recs@.map_values(|x: OutcomeRecord| x.model());
                        let ghost mr = rec.model();
                        recs.push(rec);
                        proof {
                            reveal_strlit(",");
                            assert(pc == p + 1);
                            assert(recs@.map_values(|x: OutcomeRecord| x.model()) =~= m0.push(mr));
                            if parse_records(v@, p + 1) is Some {
                                let t = parse_records(v@, p + 1)->0;
                                assert(parse_records(v@, cur as int) == Some(
                                    (seq![mr] + t.0, t.1),
                                ));
                                assert(m0 + (seq![mr] + t.0) =~= m0.push(mr) + t.0);
                            }
                        }
                        cur = pc;
                    },
                    None => match match_lit(v, p, "]") {
                        Some(pb) => {
                            let ghost m0 = recs@.map_values(|x: OutcomeRecord| x.model());
                            let ghost mr = rec.model();
                            recs.push(rec);
                            proof {
                                reveal_strlit("]");
                                assert(pb == p + 1);
                                assert(recs@.map_values(|x: OutcomeRecord| x.model()) =~= m0.push(
                                    mr,
                                ));
                                assert(parse_records(v@, cur as int) == Some(
                                    (seq![mr], p + 1 as int),
                                ));
                                assert(m0 + seq![mr] =~= m0.push(mr));
                            }
                            return Some((recs, pb));
                        },
                        None => {
                            return None;
                        },
                    },
                }
            },
        }
    }
}

/// Parses a report document back into its records; rejects anything the
/// emitter would not have written.
pub fn parse_report_json(s: &str) -> (r: Option<Vec<OutcomeRecord>>)
    ensures
        r matches Some(recs) ==> parse_report(s@) == Some(
            recs@.map_values(|x: OutcomeRecord| x.model()),
        ),
        r is None ==> parse_report(s@) is None,
{
    let v = string_chars(s);
    if v.len() == 2 {
        match match_lit(&v, 0, "[]") {
            Some(_) => {
                let empty: Vec<OutcomeRecord> = Vec::new();
                assert(empty@.map_values(|x: OutcomeRecord| x.model()) =~= Seq::<
                    RecordModel,
                >::empty());
                return Some(empty);
            },
            None => {
            },
        }
    }
    match match_lit(&v, 0, "[") {
        None => {
            proof {
                reveal_strlit("[");
                reveal_strlit("[]");
                if s@.len() == 2 && expect_lit(s@, 0, "[]"@) is Some {
                    assert(s@.subrange(0, 2)[0] == s@[0]);
                    assert(s@.subrange(0, 1) =~= "["@);
                }
            }
            None
        },
        Some(p1) => {
            proof {
                reveal_strlit("[");
                assert(p1 == 1);
            }
            match scan_records(&v, p1) {
                Some((recs, p)) => {
                    if p == v.len() {
                        Some(recs)
                    } else {
                        None
                    }
                },
                None => None,
            }
        },
    }
}

proof fn lemma_sub_at(s: Seq<char>, pos: int, whole: Seq<char>, off: int, part: Seq<char>)
    requires
        0 <= pos,
        pos + whole.len() <= s.len(),
        s.subrange(pos, pos + whole.len()) == whole,
        0 <= off,
        off + part.len() <= whole.len(),
        whole.subrange(off, off + part.len()) == part,
    ensures
        s.subrange(pos + off, pos + off + part.len()) == part,
{
    assert(s.subrange(pos + off, pos + off + part.len()) =~= part) by {
        assert forall|i: int| 0 <= i < part.len() implies s.subrange(
            pos + off,
            pos + off + part.len(),
        )[i] == part[i] by {
            assert(s.subrange(pos + off, pos + off + part.len())[i] == s[pos + off + i]);
            assert(s.subrange(pos, pos + whole.len())[off + i] == s[pos + off + i]);
            assert(whole.subrange(off, off + part.len())[i] == whole[off + i]);
        }
    }
}

proof fn lemma_parse_string_inverts(s: Seq<char>, pos: int, v: Seq<char>)
    requires
        0 <= pos,
        pos + escape_chars(v).len() + 1 <= s.len(),
        s.subrange(pos, pos + escape_chars(v).len() + 1) == escape_chars(v) + seq!['"'],
    ensures
        parse_string_from(s, pos) == Some((v, pos + escape_chars(v).len() + 1)),
    decreases v.len(),
{
    let e = escape_chars(v);
    let w = e + seq!['"'];
    assert(s.subrange(pos, pos + w.len())[0] == s[pos]);
    if v.len() == 0 {
        assert(e =~= Seq::<char>::empty());
        assert(s[pos] == '"');
    } else {
        let c = v.first();
        let vr = v.drop_first();
        let er = escape_chars(vr);
        assert(e == escape_one(c) + er);
        if c == '"' || c == '\\' {
            assert(escape_one(c) =~= seq!['\\', c]);
            assert(e.len() == 2 + er.len());
            assert(s[pos] == w[0]);
            assert(w[0] == '\\');
            assert(s.subrange(pos, pos + w.len())[1] == s[pos + 1]);
            assert(w[1] == c);
            assert(w.subrange(2, w.len() as int) =~= er + seq!['"']);
            lemma_sub_at(s, pos, w, 2, er + seq!['"']);
            lemma_parse_string_inverts(s, pos + 2, vr);
            assert(parse_string_from(s, pos) == Some(
                (seq![s[pos + 1]] + vr, pos + 2 + er.len() + 1),
            ));
            assert(seq![c] + vr =~= v);
        } else {
            assert(escape_one(c) =~= seq![c]);
            assert(s[pos] == c);
            assert(w.subrange(1, w.len() as int) =~= er + seq!['"']);
            lemma_sub_at(s, pos, w, 1, er + seq!['"']);
            lemma_parse_string_inverts(s, pos + 1, vr);
            assert(parse_string_from(s, pos) == Some(
                (seq![s[pos]] + vr, pos + 1 + er.len() + 1),
            ));
            assert(seq![c] + vr =~= v);
        }
    }
}

proof fn lemma_digit_run_exact(s: Seq<char>, pos: int, len: int)
    requires
        0 <= pos,
        0 <= len,
        pos + len <= s.len(),
        forall|i: int| 0 <= i < len ==> is_digit_char(#[trigger] s[pos + i]),
        pos + len == s.len() || !is_digit_char(s[pos + len]),
    ensures
        digit_run_len(s, pos) == len,
    decreases len,
{
    if len == 0 {
    } else {
        assert(is_digit_char(s[pos + 0]));
        assert forall|i: int| 0 <= i < len - 1 implies is_digit_char(
            #[trigger] s[pos + 1 + i],
        ) by {
            assert(is_digit_char(s[pos + (i + 1)]));
        }
        lemma_digit_run_exact(s, pos + 1, len - 1);
    }
}

proof fn lemma_parse_number_inverts(s: Seq<char>, pos: int, n: u64)
    requires
        0 <= pos,
        pos + dec_rep(n as nat).len() <= s.len(),
        s.subrange(pos, pos + dec_rep(n as nat).len()) == dec_rep(n as nat),
        pos + dec_rep(n as nat).len() == s.len() || !is_digit_char(
            s[pos + dec_rep(n as nat).len()],
        ),
    ensures
        parse_number(s, pos) == Some((n, pos + dec_rep(n as nat).len())),
{
    let d = dec_rep(n as nat);
    lemma_dec_rep_digits(n as nat);
    lemma_dec_rep_val(n as nat);
    assert(forall|i: int|
        0 <= i < d.len() ==> is_digit_char(#[trigger] s[pos + i])) by {
        assert(forall|i: int|
            0 <= i < d.len() ==> s.subrange(pos, pos + d.len())[i] == #[trigger] s[pos + i]);
    }
    lemma_digit_run_exact(s, pos, d.len() as int);
    assert(s.subrange(pos, pos + digit_run_len(s, pos)) == d);
}

proof fn lemma_parse_int_inverts(s: Seq<char>, pos: int, e: i32)
    requires
        0 <= pos,
        pos + int_rep(e as int).len() <= s.len(),
        s.subrange(pos, pos + int_rep(e as int).len()) == int_rep(e as int),
        pos + int_rep(e as int).len() == s.len() || !is_digit_char(
            s[pos + int_rep(e as int).len()],
        ),
    ensures
        parse_int(s, pos) == Some((e, pos + int_rep(e as int).len())),
{
    let w = int_rep(e as int);
    assert(s.subrange(pos, pos + w.len())[0] == s[pos]);
    if e < 0 {
        let m = (-(e as int)) as nat;
        let d = dec_rep(m);
        lemma_dec_rep_digits(m);
        assert(w == seq!['-'] + d);
        assert(s[pos] == '-');
        assert(w.subrange(1, w.len() as int) =~= d);
        lemma_sub_at(s, pos, w, 1, d);
        let mu = m as u64;
        assert(dec_rep(mu as nat) == d);
        assert(pos + w.len() == pos + 1 + d.len());
        lemma_parse_number_inverts(s, pos + 1, mu);
        assert(0 < mu <= 0x8000_0000u64);
        assert((0 - mu as int) as i32 == e);
    } else {
        lemma_dec_rep_digits(e as nat);
        assert(w == dec_rep(e as nat));
        assert(is_digit_char(s[pos]));
        assert(s[pos] != '-');
        lemma_parse_number_inverts(s, pos, e as u64);
        assert((e as u64) <= 0x7fff_ffffu64);
        assert((e as u64) as i32 == e);
    }
}

proof fn lemma_parse_status_inverts(s: Seq<char>, pos: int, st: StatusModel)
    requires
        0 <= pos,
        pos + json_status(st).len() < s.len(),
        s.subrange(pos, pos + json_status(st).len()) == json_status(st),
        s[pos + json_status(st).len()] == ',',
    ensures
        parse_status(s, pos) == Some((st, pos + json_status(st).len())),
{
    let w = json_status(st);
    let litc = "completed\",\"exit_code\":"@;
    let litt = "timed_out\""@;
    let litl = "launch_failed\",\"reason\":\""@;
    reveal_strlit("completed\",\"exit_code\":");
    reveal_strlit("timed_out\"");
    reveal_strlit("launch_failed\",\"reason\":\"");
    assert(s.subrange(pos, pos + w.len())[0] == s[pos]);
    match st {
        StatusModel::Completed { exit_code } => {
            let ir = int_rep(exit_code as int);
            assert(w == litc + ir);
            assert(w.subrange(0, litc.len() as int) =~= litc);
            lemma_sub_at(s, pos, w, 0, litc);
            assert(expect_lit(s, pos, litc) == Some(pos + litc.len() as int));
            assert(w.subrange(litc.len() as int, w.len() as int) =~= ir);
            lemma_sub_at(s, pos, w, litc.len() as int, ir);
            assert(!is_digit_char(','));
            lemma_parse_int_inverts(s, pos + litc.len(), exit_code);
        },
        StatusModel::TimedOut => {
            assert(w == litt);
            assert(s[pos] == 't');
            assert(expect_lit(s, pos, litc) is None) by {
                if expect_lit(s, pos, litc) is Some {
                    assert(s.subrange(pos, pos + litc.len())[0] == s[pos]);
                }
            }
            assert(expect_lit(s, pos, litt) == Some(pos + litt.len() as int));
        },
        StatusModel::LaunchFailed { reason } => {
            let er = escape_chars(reason);
            assert(w == litl + er + seq!['"']);
            assert(s[pos] == 'l');
            assert(expect_lit(s, pos, litc) is None) by {
                if expect_lit(s, pos, litc) is Some {
                    assert(s.subrange(pos, pos + litc.len())[0] == s[pos]);
                }
            }
            assert(expect_lit(s, pos, litt) is None) by {
                if expect_lit(s, pos, litt) is Some {
                    assert(s.subrange(pos, pos + litt.len())[0] == s[pos]);
                }
            }
            assert(w.subrange(0, litl.len() as int) =~= litl);
            lemma_sub_at(s, pos, w, 0, litl);
            assert(expect_lit(s, pos, litl) == Some(pos + litl.len() as int));
            assert(w.subrange(litl.len() as int, w.len() as int) =~= er + seq!['"']);
            lemma_sub_at(s, pos, w, litl.len() as int, er + seq!['"']);
            lemma_parse_string_inverts(s, pos + litl.len(), reason);
        },
    }
}

#[verifier::rlimit(50)]
proof fn lemma_parse_record_inverts(s: Seq<char>, pos: int, r: RecordModel)
    requires
        0 <= pos,
        pos + json_record(r).len() <= s.len(),
        s.subrange(pos, pos + json_record(r).len()) == json_record(r),
    ensures
        parse_record(s, pos) == Some((r, pos + json_record(r).len())),
{
    let w = json_record(r);
    let lit1 = "{\"target_id\":\""@;
    let e = escape_chars(r.target_id);
    let lit2 = "\",\"status\":\""@;
    let lit2p = ",\"status\":\""@;
    let st = json_status(r.status);
    let lit3 = ",\"duration_ms\":"@;
    let d = dec_rep(r.duration_ms as nat);
    reveal_strlit("{\"target_id\":\"");
    reveal_strlit("\",\"status\":\"");
    reveal_strlit(",\"status\":\"");
    reveal_strlit(",\"duration_ms\":");
    reveal_strlit("}");
    assert(lit2 =~= seq!['"'] + lit2p);
    assert(w == lit1 + e + lit2 + st + lit3 + d + seq!['}']);
    let o1 = lit1.len() as int;
    let o2 = o1 + e.len() + 1;
    let o3 = o2 + lit2p.len();
    let o4 = o3 + st.len();
    let o5 = o4 + lit3.len();
    let o6 = o5 + d.len();
    assert(w.len() == o6 + 1);
    assert(w.subrange(0, o1) =~= lit1);
    lemma_sub_at(s, pos, w, 0, lit1);
    assert(expect_lit(s, pos, lit1) == Some(pos + o1));
    assert(w.subrange(o1, o2) =~= e + seq!['"']);
    lemma_sub_at(s, pos, w, o1, e + seq!['"']);
    lemma_parse_string_inverts(s, pos + o1, r.target_id);
    assert(parse_string_from(s, pos + o1) == Some((r.target_id, pos + o2)));
    assert(w.subrange(o2, o3) =~= lit2p);
    lemma_sub_at(s, pos, w, o2, lit2p);
    assert(expect_lit(s, pos + o2, lit2p) == Some(pos + o3));
    assert(w.subrange(o3, o4) =~= st);
    lemma_sub_at(s, pos, w, o3, st);
    assert(s.subrange(pos, pos + w.len())[o4] == s[pos + o4]);
    assert(w[o4] == ',');
    lemma_parse_status_inverts(s, pos + o3, r.status);
    assert(w.subrange(o4, o5) =~= lit3);
    lemma_sub_at(s, pos, w, o4, lit3);
    assert(expect_lit(s, pos + o4, lit3) == Some(pos + o5));
    assert(w.subrange(o5, o6) =~= d);
    lemma_sub_at(s, pos, w, o5, d);
    assert(s.subrange(pos, pos + w.len())[o6] == s[pos + o6]);
    assert(w[o6] == '}');
    assert(!is_digit_char('}'));
    lemma_parse_number_inverts(s, pos + o5, r.duration_ms);
    assert(w.subrange(o6, o6 + 1) =~= "}"@);
    lemma_sub_at(s, pos, w, o6, "}"@);
    assert(expect_lit(s, pos + o6, "}"@) == Some(pos + w.len()));
}

#[verifier::rlimit(50)]
proof fn lemma_parse_records_inverts(s: Seq<char>, pos: int, rs: Seq<RecordModel>)
    requires
        rs.len() >= 1,
        0 <= pos,
        pos + json_records(rs).len() < s.len(),
        s.subrange(pos, pos + json_records(rs).len()) == json_records(rs),
        s[pos + json_records(rs).len()] == ']',
    ensures
        parse_records(s, pos) == Some((rs, pos + json_records(rs).len() + 1)),
    decreases rs.len(),
{
    let w = json_records(rs);
    let r0 = rs.first();
    let w0 = json_record(r0);
    reveal_strlit("{\"target_id\":\"");
    reveal_strlit(",");
    reveal_strlit("]");
    assert(w0.len() > 0) by {
        assert(w0 == "{\"target_id\":\""@ + escape_chars(r0.target_id) + "\",\"status\":\""@
            + json_status(r0.status) + ",\"duration_ms\":"@ + dec_rep(r0.duration_ms as nat)
            + seq!['}']);
    }
    if rs.len() == 1 {
        assert(w == w0);
        lemma_parse_record_inverts(s, pos, r0);
        let p = pos + w0.len();
        assert(s[p] == ']');
        assert(expect_lit(s, p, ","@) is None) by {
            if expect_lit(s, p, ","@) is Some {
                assert(s.subrange(p, p + ","@.len())[0] == s[p]);
            }
        }
        assert(s.subrange(p, p + 1) =~= "]"@);
        assert(expect_lit(s, p, "]"@) == Some(p + 1));
        assert(seq![r0] =~= rs);
    } else {
        let rest = rs.drop_first();
        let wr = json_records(rest);
        assert(w == w0 + seq![','] + wr);
        assert(w.subrange(0, w0.len() as int) =~= w0);
        lemma_sub_at(s, pos, w, 0, w0);
        lemma_parse_record_inverts(s, pos, r0);
        let p = pos + w0.len();
        assert(s.subrange(pos, pos + w.len())[w0.len() as int] == s[p]);
        assert(w[w0.len() as int] == ',');
        assert(s.subrange(p, p + 1) =~= ","@);
        assert(expect_lit(s, p, ","@) == Some(p + 1));
        assert(w.subrange(w0.len() + 1 as int, w.len() as int) =~= wr);
        lemma_sub_at(s, pos, w, w0.len() + 1 as int, wr);
        lemma_parse_records_inverts(s, p + 1, rest);
        assert(parse_records(s, p + 1) == Some((rest, p + 1 + wr.len() + 1)));
        assert(parse_records(s, pos) == Some((seq![r0] + rest, p + 1 + wr.len() + 1)));
        assert(seq![r0] + rest =~= rs);
    }
}

/// Parsing the document emitted for any sequence of records reconstructs
/// exactly those records: the JSON form of a report round-trips.
pub proof fn lemma_json_round_trip(rs: Seq<RecordModel>)
    ensures
        parse_report(json_report(rs)) == Some(rs),
{
    let s = json_report(rs);
    reveal_strlit("[]");
    reveal_strlit("[");
    if rs.len() == 0 {
        assert(s == "[]"@);
        assert(s.len() == 2);
        assert(s.subrange(0, 2) =~= "[]"@);
        assert(expect_lit(s, 0, "[]"@) is Some);
    } else {
        let w = json_records(rs);
        let r0 = rs.first();
        reveal_strlit("{\"target_id\":\"");
        assert(json_record(r0).len() >= "{\"target_id\":\""@.len()) by {
            assert(json_record(r0) == "{\"target_id\":\""@ + escape_chars(r0.target_id)
                + "\",\"status\":\""@ + json_status(r0.status) + ",\"duration_ms\":"@ + dec_rep(
                r0.duration_ms as nat,
            ) + seq!['}']);
        }
        assert(w.len() >= json_record(r0).len()) by {
            if rs.len() > 1 {
                assert(w == json_record(r0) + seq![','] + json_records(rs.drop_first()));
            }
        }
        assert(s == seq!['['] + w + seq![']']);
        assert(s.len() == w.len() + 2);
        assert(s.len() > 2);
        assert(s[0] == '[');
        assert(s.subrange(0, 1) =~= "["@);
        assert(expect_lit(s, 0, "["@) == Some(1int));
        assert(s.subrange(1, 1 + w.len() as int) =~= w);
        assert(s[1 + w.len() as int] == ']');
        lemma_parse_records_inverts(s, 1, rs);
        assert(parse_records(s, 1) == Some((rs, s.len() as int)));
    }
}

/// Parsing the document emitted for a report reconstructs exactly the
/// id, status and duration of every outcome, in report order.
pub proof fn lemma_report_json_round_trip(report: AggregateReport)
    ensures
        parse_report(json_report(report_records(report))) == Some(report_records(report)),
{
    lemma_json_round_trip(report_records(report));
}

/// The records the outcomes of `report` contribute, in report order.
pub open spec fn report_records(report: AggregateReport) -> Seq<RecordModel> {
    report.outcomes@.map_values(|o: ExecutionOutcome| outcome_record(o))
}

/// Renders the whole report as its JSON document.
pub fn render_json(report: &AggregateReport) -> (s: String)
    ensures
        s@ == json_report(report_records(*report)),
{
    let ghost models = report_records(*report);
    let mut out: Vec<char> = Vec::new();
    out.push('[');
    let mut i: usize = 0;
    let n = report.outcomes.len();
    assert(models.len() == n);
    while i < n
        invariant
            n == report.outcomes@.len(),
            models == report_records(*report),
            models.len() == n,
            0 <= i <= n,
            i == 0 ==> out@ == seq!['['],
            i >= 1 ==> out@ == seq!['['] + json_records(models.take(i as int)),
        decreases n - i,
    {
        if i > 0 {
            out.push(',');
        }
        let o = &report.outcomes[i];
        push_record(&mut out, &o.target_id, &o.status, o.duration_ms);
        proof {
            assert(models[i as int] == outcome_record(report.outcomes@[i as int]));
            if i == 0 {
                assert(models.take(1).first() == models[0]);
                assert(json_records(models.take(1)) == json_record(models[0]));
            } else {
                assert(models.take(i + 1) =~= models.take(i as int).push(models[i as int]));
                lemma_json_records_snoc(models.take(i as int), models[i as int]);
                assert(seq!['['] + json_records(models.take(i + 1)) =~= ((seq!['['] + json_records(
                    models.take(i as int),
                )).push(',')) + json_record(models[i as int]));
            }
        }
        i = i + 1;
    }
    out.push(']');
    proof {
        if n == 0 {
            reveal_strlit("[]");
            assert(json_report(models) =~= seq!['[', ']']);
            assert(out@ =~= seq!['[', ']']);
        } else {
            assert(models.take(n as int) =~= models);
            assert(out@ =~= seq!['['] + json_records(models) + seq![']']);
        }
    }
    chars_to_string(&out)
}

} // verus!
