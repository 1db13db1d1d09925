//! The broker wire format: job telemetry and commands as JSON text, with
//! a decoder that inverts the encoder exactly.
//!
//! Variants are externally tagged, objects carry their keys in a fixed
//! order, and strings escape the quote, the backslash and the control
//! characters. Decoding an encoded value yields an equal value.

use vstd::prelude::*;
use crate::devinfo::{DeviceInformation, InfoV};
use crate::job::{JobData, JobDataV};
use crate::numbers::{dec_seq, dec_val, is_dec_digit, lemma_dec_seq};
use crate::status::{JobCommand, JobUpdate, UpdateV};
use crate::text::{chars_to_string, str_chars};
use crate::trigger::spec_digit_prefix_len;

verus! {

/// The uppercase hex character for a value below sixteen.
pub open spec fn spec_hex_char(d: int) -> char {
    crate::board::spec_hex_byte(d) as char
}

/// The value of an uppercase hex character; anything else is negative.
pub open spec fn spec_hex_val(c: char) -> int {
    if '0' <= c && c <= '9' {
        c as int - 48
    } else if 'A' <= c && c <= 'F' {
        c as int - 55
    } else {
        -1
    }
}

/// How one character is written inside a JSON string: the quote and the
/// backslash get a backslash, control characters become `\u00` plus two
/// hex digits, everything else stands for itself.
pub open spec fn esc_char(c: char) -> Seq<char> {
    if c == '"' {
        seq!['\\', '"']
    } else if c == '\\' {
        seq!['\\', '\\']
    } else if (c as int) < 32 {
        seq!['\\', 'u', '0', '0', spec_hex_char(c as int / 16), spec_hex_char(c as int % 16)]
    } else {
        seq![c]
    }
}

/// A string's characters, escaped in order.
pub open spec fn esc_seq(s: Seq<char>) -> Seq<char>
    decreases s.len(),
{
    if s.len() == 0 {
        Seq::empty()
    } else {
        esc_char(s.first()) + esc_seq(s.drop_first())
    }
}

/// A JSON string: quote, escaped characters, quote.
pub open spec fn enc_str(s: Seq<char>) -> Seq<char> {
    seq!['"'] + esc_seq(s) + seq!['"']
}

/// A JSON integer, optionally negative.
pub open spec fn enc_int(n: int) -> Seq<char> {
    if n < 0 {
        seq!['-'] + dec_seq((-n) as nat)
    } else {
        dec_seq(n as nat)
    }
}

/// An optional integer: `null` when absent.
pub open spec fn enc_opt_int(n: Option<int>) -> Seq<char> {
    match n {
        None => "null"@,
        Some(v) => enc_int(v),
    }
}

/// A JSON boolean.
pub open spec fn enc_bool(b: bool) -> Seq<char> {
    if b {
        "true"@
    } else {
        "false"@
    }
}

/// One recorded fact, externally tagged; the bare kinds are plain JSON
/// strings.
pub open spec fn enc_info(i: InfoV) -> Seq<char> {
    match i {
        InfoV::Vendor(s) => "{\"Vendor\":"@ + enc_str(s) + "}"@,
        InfoV::Model(s) => "{\"Model\":"@ + enc_str(s) + "}"@,
        InfoV::SerialNumber(s) => "{\"SerialNumber\":"@ + enc_str(s) + "}"@,
        InfoV::LoopDetected => "\"LoopDetected\""@,
        InfoV::SuccessEnd => "\"SuccessEnd\""@,
        InfoV::ErrorEnd => "\"ErrorEnd\""@,
    }
}

/// One history entry: a two-element array of timestamp and state name.
pub open spec fn enc_hist_entry(e: (int, Seq<char>)) -> Seq<char> {
    "["@ + enc_int(e.0) + ","@ + enc_str(e.1) + "]"@
}

/// The elements of a history array, comma-separated.
pub open spec fn enc_hist_items(s: Seq<(int, Seq<char>)>) -> Seq<char>
    decreases s.len(),
{
    if s.len() == 0 {
        Seq::empty()
    } else if s.len() == 1 {
        enc_hist_entry(s.first())
    } else {
        enc_hist_entry(s.first()) + ","@ + enc_hist_items(s.drop_first())
    }
}

/// The elements of an info array, comma-separated.
pub open spec fn enc_info_items(s: Seq<InfoV>) -> Seq<char>
    decreases s.len(),
{
    if s.len() == 0 {
        Seq::empty()
    } else if s.len() == 1 {
        enc_info(s.first())
    } else {
        enc_info(s.first()) + ","@ + enc_info_items(s.drop_first())
    }
}

/// A whole job record, keys in fixed order.
pub open spec fn enc_data(d: JobDataV) -> Seq<char> {
    "{\"label\":"@ + enc_str(d.label) + ",\"job_started\":"@ + enc_opt_int(d.job_started)
        + ",\"job_ended\":"@ + enc_opt_int(d.job_ended) + ",\"state_history\":["@ + enc_hist_items(
        d.state_history,
    ) + "],\"info_items\":["@ + enc_info_items(d.info_items) + "],\"fatal\":"@ + enc_bool(d.fatal)
        + "}"@
}

/// One telemetry message, externally tagged.
pub open spec fn enc_update(u: UpdateV) -> Seq<char> {
    match u {
        UpdateV::JobStageTransition(ts, name) => "{\"JobStageTransition\":["@ + enc_int(ts) + ","@
            + enc_str(name) + "]}"@,
        UpdateV::JobStart(ts) => "{\"JobStart\":"@ + enc_int(ts) + "}"@,
        UpdateV::JobEnd(ts) => "{\"JobEnd\":"@ + enc_int(ts) + "}"@,
        UpdateV::JobNewInfoItem(i) => "{\"JobNewInfoItem\":"@ + enc_info(i) + "}"@,
        UpdateV::JobFullData(d) => "{\"JobFullData\":"@ + enc_data(d) + "}"@,
    }
}

/// One command, a plain JSON string.
pub open spec fn enc_command(c: JobCommand) -> Seq<char> {
    match c {
        JobCommand::ResetJob => "\"ResetJob\""@,
        JobCommand::RestartAngel => "\"RestartAngel\""@,
        JobCommand::GetJobData => "\"GetJobData\""@,
    }
}

/// Escaping distributes over appending one character.
pub proof fn lemma_esc_push(s: Seq<char>, c: char)
    ensures
        esc_seq(s.push(c)) == esc_seq(s) + esc_char(c),
    decreases s.len(),
{
    if s.len() == 0 {
        assert(s.push(c).drop_first() =~= Seq::<char>::empty());
        assert(s.push(c).first() == c);
        assert(esc_seq(Seq::<char>::empty()) =~= Seq::<char>::empty());
        assert(esc_seq(s.push(c)) =~= esc_char(c));
        assert(esc_seq(s) + esc_char(c) =~= esc_char(c));
    } else {
        assert(s.push(c).first() == s.first());
        assert(s.push(c).drop_first() =~= s.drop_first().push(c));
        lemma_esc_push(s.drop_first(), c);
        assert(esc_seq(s.push(c)) =~= esc_seq(s) + esc_char(c));
    }
}

/// The two uppercase hex characters of a control character's code.
fn hex_char(d: u8) -> (r: char)
    requires
        d < 16,
    ensures
        r == spec_hex_char(d as int),
{
    let b = crate::board::hex_byte(d);
    b as char
}

/// Escapes one character onto the output.
fn push_escaped(out: &mut Vec<char>, c: char)
    ensures
        final(out)@ == old(out)@ + esc_char(c),
{
    if c == '"' {
        out.push('\\');
        out.push('"');
        proof {
            assert(out@ =~= old(out)@ + esc_char(c));
        }
    } else if c == '\\' {
        out.push('\\');
        out.push('\\');
        proof {
            assert(out@ =~= old(out)@ + esc_char(c));
        }
    } else if (c as u32) < 32 {
        let code = c as u8;
        out.push('\\');
        out.push('u');
        out.push('0');
        out.push('0');
        out.push(hex_char(code / 16));
        out.push(hex_char(code % 16));
        proof {
            assert(code as int == c as int);
            assert(out@ =~= old(out)@ + esc_char(c));
        }
    } else {
        out.push(c);
        proof {
            assert(out@ =~= old(out)@ + esc_char(c));
        }
    }
}

/// Writes a JSON string onto the output.
#[verifier::loop_isolation(false)]
fn push_str_enc(out: &mut Vec<char>, s: &str)
    ensures
        final(out)@ == old(out)@ + enc_str(s@),
{
    out.push('"');
    let n = s.unicode_len();
    for i in 0..n
        invariant
            n == s@.len(),
            out@ == old(out)@ + seq!['"'] + esc_seq(s@.take(i as int)),
    {
        proof {
            assert(s@.take(i as int).push(s@[i as int]) =~= s@.take(i as int + 1));
            lemma_esc_push(s@.take(i as int), s@[i as int]);
        }
        push_escaped(out, s.get_char(i));
    }
    out.push('"');
    proof {
        assert(s@.take(n as int) =~= s@);
        assert(out@ =~= old(out)@ + enc_str(s@));
    }
}

/// Writes a decimal integer onto the output.
fn push_int(out: &mut Vec<char>, n: i64)
    ensures
        final(out)@ == old(out)@ + enc_int(n as int),
{
    if n < 0 {
        out.push('-');
        let mag: u64 = (-(n as i128)) as u64;
        proof {
            assert(mag as int == -(n as int));
        }
        let digits = crate::numbers::u64_to_dec(mag);
        let m = digits.len();
        let ghost mid = out@;
        for i in 0..m
            invariant
                m == digits@.len(),
                out@ == mid + digits@.take(i as int),
        {
            out.push(digits[i]);
            proof {
                assert(out@ =~= mid + digits@.take(i as int + 1));
            }
        }
        proof {
            assert(digits@.take(m as int) =~= digits@);
            assert(out@ =~= old(out)@ + enc_int(n as int));
        }
    } else {
        let digits = crate::numbers::u64_to_dec(n as u64);
        let m = digits.len();
        let ghost mid = out@;
        for i in 0..m
            invariant
                m == digits@.len(),
                out@ == mid + digits@.take(i as int),
        {
            out.push(digits[i]);
            proof {
                assert(out@ =~= mid + digits@.take(i as int + 1));
            }
        }
        proof {
            assert(digits@.take(m as int) =~= digits@);
            assert(out@ =~= old(out)@ + enc_int(n as int));
        }
    }
}

/// Writes a literal onto the output.
#[verifier::loop_isolation(false)]
fn push_lit(out: &mut Vec<char>, lit: &str)
    ensures
        final(out)@ == old(out)@ + lit@,
{
    let n = lit.unicode_len();
    for i in 0..n
        invariant
            n == lit@.len(),
            out@ == old(out)@ + lit@.take(i as int),
    {
        out.push(lit.get_char(i));
        proof {
            assert(out@ =~= old(out)@ + lit@.take(i as int + 1));
        }
    }
    proof {
        assert(lit@.take(n as int) =~= lit@);
    }
}

/// Writes an optional integer onto the output.
fn push_opt_int(out: &mut Vec<char>, n: &Option<i64>)
    ensures
        final(out)@ == old(out)@ + enc_opt_int(
            match n {
                Some(v) => Some(*v as int),
                None => None,
            },
        ),
{
    match n {
        None => push_lit(out, "null"),
        Some(v) => push_int(out, *v),
    }
}

/// Writes one recorded fact onto the output.
fn push_info(out: &mut Vec<char>, i: &DeviceInformation)
    ensures
        final(out)@ == old(out)@ + enc_info(i@),
{
    match i {
        DeviceInformation::Vendor(s) => {
            push_lit(out, "{\"Vendor\":");
            push_str_enc(out, s.as_str());
            push_lit(out, "}");
        },
        DeviceInformation::Model(s) => {
            push_lit(out, "{\"Model\":");
            push_str_enc(out, s.as_str());
            push_lit(out, "}");
        },
        DeviceInformation::SerialNumber(s) => {
            push_lit(out, "{\"SerialNumber\":");
            push_str_enc(out, s.as_str());
            push_lit(out, "}");
        },
        DeviceInformation::LoopDetected => push_lit(out, "\"LoopDetected\""),
        DeviceInformation::SuccessEnd => push_lit(out, "\"SuccessEnd\""),
        DeviceInformation::ErrorEnd => push_lit(out, "\"ErrorEnd\""),
    }
    proof {
        assert(out@ =~= old(out)@ + enc_info(i@));
    }
}

/// Writes the history entries from `i` on, comma-separated.
fn push_hist_from(out: &mut Vec<char>, hist: &Vec<(i64, String)>, i: usize)
    requires
        i <= hist@.len(),
    ensures
        final(out)@ == old(out)@ + enc_hist_items(crate::job::hist_view(hist@).skip(i as int)),
    decreases hist@.len() - i,
{
    let ghost hv = crate::job::hist_view(hist@);
    let n = hist.len();
    if i == n {
        proof {
            assert(hv.skip(i as int) =~= Seq::<(int, Seq<char>)>::empty());
            assert(out@ =~= out@ + enc_hist_items(hv.skip(i as int)));
        }
        return ;
    }
    proof {
        assert(hv.skip(i as int).first() == hv[i as int]);
        assert(hv[i as int] == (hist@[i as int].0 as int, hist@[i as int].1@));
        assert(hv.skip(i as int).drop_first() =~= hv.skip(i as int + 1));
    }
    let entry = &hist[i];
    push_lit(out, "[");
    push_int(out, entry.0);
    push_lit(out, ",");
    push_str_enc(out, entry.1.as_str());
    push_lit(out, "]");
    if i + 1 == n {
        proof {
            assert(hv.skip(i as int).len() == 1);
            assert(out@ =~= old(out)@ + enc_hist_items(hv.skip(i as int)));
        }
    } else {
        push_lit(out, ",");
        let ghost mid = out@;
        push_hist_from(out, hist, i + 1);
        proof {
            assert(out@ =~= old(out)@ + enc_hist_items(hv.skip(i as int)));
        }
    }
}

/// Writes the info items from `i` on, comma-separated.
fn push_infos_from(out: &mut Vec<char>, items: &Vec<DeviceInformation>, i: usize)
    requires
        i <= items@.len(),
    ensures
        final(out)@ == old(out)@ + enc_info_items(crate::job::items_view(items@).skip(i as int)),
    decreases items@.len() - i,
{
    let ghost iv = crate::job::items_view(items@);
    let n = items.len();
    if i == n {
        proof {
            assert(iv.skip(i as int) =~= Seq::<InfoV>::empty());
            assert(out@ =~= out@ + enc_info_items(iv.skip(i as int)));
        }
        return ;
    }
    proof {
        assert(iv.skip(i as int).first() == iv[i as int]);
        assert(iv[i as int] == items@[i as int]@);
        assert(iv.skip(i as int).drop_first() =~= iv.skip(i as int + 1));
    }
    push_info(out, &items[i]);
    if i + 1 == n {
        proof {
            assert(iv.skip(i as int).len() == 1);
            assert(out@ =~= old(out)@ + enc_info_items(iv.skip(i as int)));
        }
    } else {
        push_lit(out, ",");
        push_infos_from(out, items, i + 1);
        proof {
            assert(out@ =~= old(out)@ + enc_info_items(iv.skip(i as int)));
        }
    }
}

/// Writes a whole record onto the output.
#[verifier::rlimit(100)]
fn push_data(out: &mut Vec<char>, d: &JobData)
    ensures
        final(out)@ == old(out)@ + enc_data(d@),
{
    push_lit(out, "{\"label\":");
    push_str_enc(out, d.label.as_str());
    push_lit(out, ",\"job_started\":");
    push_opt_int(out, &d.job_started);
    push_lit(out, ",\"job_ended\":");
    push_opt_int(out, &d.job_ended);
    push_lit(out, ",\"state_history\":[");
    push_hist_from(out, &d.state_history, 0);
    push_lit(out, "],\"info_items\":[");
    push_infos_from(out, &d.info_items, 0);
    push_lit(out, "],\"fatal\":");
    if d.fatal {
        push_lit(out, "true");
    } else {
        push_lit(out, "false");
    }
    push_lit(out, "}");
    proof {
        assert(crate::job::hist_view(d.state_history@).skip(0) =~= d@.state_history);
        assert(crate::job::items_view(d.info_items@).skip(0) =~= d@.info_items);
        assert(out@ =~= old(out)@ + enc_data(d@));
    }
}

/// Encodes one telemetry message for the broker.
pub fn encode_update(u: &JobUpdate) -> (r: String)
    ensures
        r@ == enc_update(u@),
{
    let mut out: Vec<char> = Vec::new();
    match u {
        JobUpdate::JobStageTransition(ts, name) => {
            push_lit(&mut out, "{\"JobStageTransition\":[");
            push_int(&mut out, *ts);
            push_lit(&mut out, ",");
            push_str_enc(&mut out, name.as_str());
            push_lit(&mut out, "]}");
        },
        JobUpdate::JobStart(ts) => {
            push_lit(&mut out, "{\"JobStart\":");
            push_int(&mut out, *ts);
            push_lit(&mut out, "}");
        },
        JobUpdate::JobEnd(ts) => {
            push_lit(&mut out, "{\"JobEnd\":");
            push_int(&mut out, *ts);
            push_lit(&mut out, "}");
        },
        JobUpdate::JobNewInfoItem(i) => {
            push_lit(&mut out, "{\"JobNewInfoItem\":");
            push_info(&mut out, i);
            push_lit(&mut out, "}");
        },
        JobUpdate::JobFullData(d) => {
            push_lit(&mut out, "{\"JobFullData\":");
            push_data(&mut out, d);
            push_lit(&mut out, "}");
        },
    }
    proof {
        assert(out@ =~= enc_update(u@));
    }
    chars_to_string(&out)
}

/// Encodes one command for the broker.
pub fn encode_command(c: &JobCommand) -> (r: String)
    ensures
        r@ == enc_command(*c),
{
    match c {
        JobCommand::ResetJob => String::from_str("\"ResetJob\""),
        JobCommand::RestartAngel => String::from_str("\"RestartAngel\""),
        JobCommand::GetJobData => String::from_str("\"GetJobData\""),
    }
}

/// Whether `p` is a prefix of `s`.
pub open spec fn starts_with(s: Seq<char>, p: Seq<char>) -> bool {
    p.len() <= s.len() && s.take(p.len() as int) == p
}

/// Consumes the literal `p`, or fails.
pub open spec fn p_lit(s: Seq<char>, p: Seq<char>) -> Option<Seq<char>> {
    if starts_with(s, p) {
        Some(s.skip(p.len() as int))
    } else {
        None
    }
}

/// Consumes a non-empty run of digits.
pub open spec fn p_digits(s: Seq<char>) -> Option<(int, Seq<char>)> {
    let k = spec_digit_prefix_len(s);
    if k == 0 {
        None
    } else {
        Some((dec_val(s.take(k)), s.skip(k)))
    }
}

/// Consumes a decimal integer within `i64` range, optionally negative.
pub open spec fn p_int(s: Seq<char>) -> Option<(int, Seq<char>)> {
    if s.len() > 0 && s.first() == '-' {
        match p_digits(s.drop_first()) {
            Some((v, r)) => if v <= 0x8000000000000000 {
                Some((-v, r))
            } else {
                None
            },
            None => None,
        }
    } else {
        match p_digits(s) {
            Some((v, r)) => if v <= i64::MAX as int {
                Some((v, r))
            } else {
                None
            },
            None => None,
        }
    }
}

/// Consumes `null` or an integer.
pub open spec fn p_opt_int(s: Seq<char>) -> Option<(Option<int>, Seq<char>)> {
    match p_lit(s, "null"@) {
        Some(r) => Some((None, r)),
        None => match p_int(s) {
            Some((v, r)) => Some((Some(v), r)),
            None => None,
        },
    }
}

/// Consumes a string body up to and including the closing quote,
/// undoing the escapes the encoder writes.
pub open spec fn p_str_body(s: Seq<char>) -> Option<(Seq<char>, Seq<char>)>
    decreases s.len(),
{
    if s.len() == 0 {
        None
    } else if s.first() == '"' {
        Some((Seq::empty(), s.drop_first()))
    } else if s.first() == '\\' {
        if s.len() < 2 {
            None
        } else if s[1] == '"' {
            match p_str_body(s.skip(2)) {
                Some((t, r)) => Some((seq!['"'] + t, r)),
                None => None,
            }
        } else if s[1] == '\\' {
            match p_str_body(s.skip(2)) {
                Some((t, r)) => Some((seq!['\\'] + t, r)),
                None => None,
            }
        } else if s[1] == 'u' {
            if s.len() >= 6 && s[2] == '0' && s[3] == '0' && 0 <= spec_hex_val(s[4]) && 0
                <= spec_hex_val(s[5]) && spec_hex_val(s[4]) * 16 + spec_hex_val(s[5]) < 32 {
                match p_str_body(s.skip(6)) {
                    Some((t, r)) => Some(
                        (
                            seq![((spec_hex_val(s[4]) * 16 + spec_hex_val(s[5])) as u8) as char]
                                + t,
                            r,
                        ),
                    ),
                    None => None,
                }
            } else {
                None
            }
        } else {
            None
        }
    } else {
        match p_str_body(s.drop_first()) {
            Some((t, r)) => Some((seq![s.first()] + t, r)),
            None => None,
        }
    }
}

/// Consumes a quoted string.
pub open spec fn p_str(s: Seq<char>) -> Option<(Seq<char>, Seq<char>)> {
    if s.len() > 0 && s.first() == '"' {
        p_str_body(s.drop_first())
    } else {
        None
    }
}

/// Consumes `true` or `false`.
pub open spec fn p_bool(s: Seq<char>) -> Option<(bool, Seq<char>)> {
    match p_lit(s, "true"@) {
        Some(r) => Some((true, r)),
        None => match p_lit(s, "false"@) {
            Some(r) => Some((false, r)),
            None => None,
        },
    }
}

/// Consumes one recorded fact.
pub open spec fn p_info(s: Seq<char>) -> Option<(InfoV, Seq<char>)> {
    if p_lit(s, "{\"Vendor\":"@) is Some {
        match p_str(p_lit(s, "{\"Vendor\":"@)->0) {
            Some((v, r)) => match p_lit(r, "}"@) {
                Some(r2) => Some((InfoV::Vendor(v), r2)),
                None => None,
            },
            None => None,
        }
    } else if p_lit(s, "{\"Model\":"@) is Some {
        match p_str(p_lit(s, "{\"Model\":"@)->0) {
            Some((v, r)) => match p_lit(r, "}"@) {
                Some(r2) => Some((InfoV::Model(v), r2)),
                None => None,
            },
            None => None,
        }
    } else if p_lit(s, "{\"SerialNumber\":"@) is Some {
        match p_str(p_lit(s, "{\"SerialNumber\":"@)->0) {
            Some((v, r)) => match p_lit(r, "}"@) {
                Some(r2) => Some((InfoV::SerialNumber(v), r2)),
                None => None,
            },
            None => None,
        }
    } else if p_lit(s, "\"LoopDetected\""@) is Some {
        Some((InfoV::LoopDetected, p_lit(s, "\"LoopDetected\""@)->0))
    } else if p_lit(s, "\"SuccessEnd\""@) is Some {
        Some((InfoV::SuccessEnd, p_lit(s, "\"SuccessEnd\""@)->0))
    } else if p_lit(s, "\"ErrorEnd\""@) is Some {
        Some((InfoV::ErrorEnd, p_lit(s, "\"ErrorEnd\""@)->0))
    } else {
        None
    }
}

/// Consumes one history entry.
pub open spec fn p_hist_entry(s: Seq<char>) -> Option<((int, Seq<char>), Seq<char>)> {
    match p_lit(s, "["@) {
        None => None,
        Some(s1) => match p_int(s1) {
            None => None,
            Some((ts, s2)) => match p_lit(s2, ","@) {
                None => None,
                Some(s3) => match p_str(s3) {
                    None => None,
                    Some((name, s4)) => match p_lit(s4, "]"@) {
                        None => None,
                        Some(s5) => Some(((ts, name), s5)),
                    },
                },
            },
        },
    }
}

/// Consumes history entries up to and including the closing bracket.
pub open spec fn p_hist_items(s: Seq<char>) -> Option<(Seq<(int, Seq<char>)>, Seq<char>)>
    decreases s.len(),
    via p_hist_items_decreases
{
    match p_lit(s, "]"@) {
        Some(r) => Some((Seq::empty(), r)),
        None => match p_hist_entry(s) {
            None => None,
            Some((e, s2)) => match p_lit(s2, "]"@) {
                Some(r) => Some((seq![e], r)),
                None => match p_lit(s2, ","@) {
                    None => None,
                    Some(s3) => match p_hist_items(s3) {
                        None => None,
                        Some((t, r)) => Some((seq![e] + t, r)),
                    },
                },
            },
        },
    }
}

/// Consumes info items up to and including the closing bracket.
pub open spec fn p_info_items(s: Seq<char>) -> Option<(Seq<InfoV>, Seq<char>)>
    decreases s.len(),
    via p_info_items_decreases
{
    match p_lit(s, "]"@) {
        Some(r) => Some((Seq::empty(), r)),
        None => match p_info(s) {
            None => None,
            Some((e, s2)) => match p_lit(s2, "]"@) {
                Some(r) => Some((seq![e], r)),
                None => match p_lit(s2, ","@) {
                    None => None,
                    Some(s3) => match p_info_items(s3) {
                        None => None,
                        Some((t, r)) => Some((seq![e] + t, r)),
                    },
                },
            },
        },
    }
}

/// Consumes a whole record.
pub open spec fn p_data(s: Seq<char>) -> Option<(JobDataV, Seq<char>)> {
    match p_lit(s, "{\"label\":"@) {
        None => None,
        Some(s1) => match p_str(s1) {
            None => None,
            Some((label, s2)) => match p_lit(s2, ",\"job_started\":"@) {
                None => None,
                Some(s3) => match p_opt_int(s3) {
                    None => None,
                    Some((started, s4)) => match p_lit(s4, ",\"job_ended\":"@) {
                        None => None,
                        Some(s5) => match p_opt_int(s5) {
                            None => None,
                            Some((ended, s6)) => match p_lit(s6, ",\"state_history\":["@) {
                                None => None,
                                Some(s7) => match p_hist_items(s7) {
                                    None => None,
                                    Some((hist, s8)) => match p_lit(s8, ",\"info_items\":["@) {
                                        None => None,
                                        Some(s9) => match p_info_items(s9) {
                                            None => None,
                                            Some((infos, s10)) => match p_lit(
                                                s10,
                                                ",\"fatal\":"@,
                                            ) {
                                                None => None,
                                                Some(s11) => match p_bool(s11) {
                                                    None => None,
                                                    Some((fatal, s12)) => match p_lit(s12, "}"@) {
                                                        None => None,
                                                        Some(s13) => Some(
                                                            (
                                                                JobDataV {
                                                                    label,
                                                                    job_started: started,
                                                                    job_ended: ended,
                                                                    state_history: hist,
                                                                    info_items: infos,
                                                                    fatal,
                                                                },
                                                                s13,
                                                            ),
                                                        ),
                                                    },
                                                },
                                            },
                                        },
                                    },
                                },
                            },
                        },
                    },
                },
            },
        },
    }
}

/// Consumes one telemetry message.
pub open spec fn p_update(s: Seq<char>) -> Option<(UpdateV, Seq<char>)> {
    if p_lit(s, "{\"JobStageTransition\":["@) is Some {
        match p_int(p_lit(s, "{\"JobStageTransition\":["@)->0) {
            None => None,
            Some((ts, s2)) => match p_lit(s2, ","@) {
                None => None,
                Some(s3) => match p_str(s3) {
                    None => None,
                    Some((name, s4)) => match p_lit(s4, "]}"@) {
                        None => None,
                        Some(r) => Some((UpdateV::JobStageTransition(ts, name), r)),
                    },
                },
            },
        }
    } else if p_lit(s, "{\"JobStart\":"@) is Some {
        match p_int(p_lit(s, "{\"JobStart\":"@)->0) {
            None => None,
            Some((ts, s2)) => match p_lit(s2, "}"@) {
                None => None,
                Some(r) => Some((UpdateV::JobStart(ts), r)),
            },
        }
    } else if p_lit(s, "{\"JobEnd\":"@) is Some {
        match p_int(p_lit(s, "{\"JobEnd\":"@)->0) {
            None => None,
            Some((ts, s2)) => match p_lit(s2, "}"@) {
                None => None,
                Some(r) => Some((UpdateV::JobEnd(ts), r)),
            },
        }
    } else if p_lit(s, "{\"JobNewInfoItem\":"@) is Some {
        match p_info(p_lit(s, "{\"JobNewInfoItem\":"@)->0) {
            None => None,
            Some((i, s2)) => match p_lit(s2, "}"@) {
                None => None,
                Some(r) => Some((UpdateV::JobNewInfoItem(i), r)),
            },
        }
    } else if p_lit(s, "{\"JobFullData\":"@) is Some {
        match p_data(p_lit(s, "{\"JobFullData\":"@)->0) {
            None => None,
            Some((d, s2)) => match p_lit(s2, "}"@) {
                None => None,
                Some(r) => Some((UpdateV::JobFullData(d), r)),
            },
        }
    } else {
        None
    }
}

/// Consumes one command.
pub open spec fn p_command(s: Seq<char>) -> Option<(JobCommand, Seq<char>)> {
    match p_lit(s, "\"ResetJob\""@) {
        Some(r) => Some((JobCommand::ResetJob, r)),
        None => match p_lit(s, "\"RestartAngel\""@) {
            Some(r) => Some((JobCommand::RestartAngel, r)),
            None => match p_lit(s, "\"GetJobData\""@) {
                Some(r) => Some((JobCommand::GetJobData, r)),
                None => None,
            },
        },
    }
}

/// What a whole payload decodes to: one message and nothing after it.
pub open spec fn spec_decode_update(s: Seq<char>) -> Option<UpdateV> {
    match p_update(s) {
        Some((u, r)) => if r.len() == 0 {
            Some(u)
        } else {
            None
        },
        None => None,
    }
}

/// What a whole payload decodes to as a command.
pub open spec fn spec_decode_command(s: Seq<char>) -> Option<JobCommand> {
    match p_command(s) {
        Some((c, r)) => if r.len() == 0 {
            Some(c)
        } else {
            None
        },
        None => None,
    }
}

proof fn lemma_p_lit_progress(s: Seq<char>, p: Seq<char>)
    ensures
        p_lit(s, p) matches Some(r) ==> r.len() == s.len() - p.len(),
{
}

proof fn lemma_p_str_body_progress(s: Seq<char>)
    ensures
        p_str_body(s) matches Some(t) ==> t.1.len() < s.len(),
    decreases s.len(),
{
    if s.len() == 0 {
    } else if s.first() == '"' {
    } else if s.first() == '\\' {
        if s.len() >= 2 && (s[1] == '"' || s[1] == '\\') {
            lemma_p_str_body_progress(s.skip(2));
        } else if s.len() >= 2 && s[1] == 'u' {
            if s.len() >= 6 {
                lemma_p_str_body_progress(s.skip(6));
            }
        }
    } else {
        lemma_p_str_body_progress(s.drop_first());
    }
}

proof fn lemma_p_int_progress(s: Seq<char>)
    ensures
        p_int(s) matches Some(t) ==> t.1.len() < s.len(),
{
    if s.len() > 0 && s.first() == '-' {
        lemma_digit_prefix_len_bounds(s.drop_first());
    } else {
        lemma_digit_prefix_len_bounds(s);
    }
}

proof fn lemma_digit_prefix_len_bounds(s: Seq<char>)
    ensures
        0 <= spec_digit_prefix_len(s) <= s.len(),
    decreases s.len(),
{
    if s.len() > 0 && is_dec_digit(s.first()) {
        lemma_digit_prefix_len_bounds(s.drop_first());
    }
}

proof fn lemma_p_hist_entry_progress(s: Seq<char>)
    ensures
        p_hist_entry(s) matches Some(t) ==> t.1.len() < s.len(),
{
    reveal_strlit("[");
    reveal_strlit(",");
    reveal_strlit("]");
    if p_lit(s, "["@) is Some {
        let s1 = p_lit(s, "["@)->0;
        lemma_p_int_progress(s1);
        if p_int(s1) is Some {
            let s2 = (p_int(s1)->0).1;
            if p_lit(s2, ","@) is Some {
                let s3 = p_lit(s2, ","@)->0;
                if s3.len() > 0 && s3.first() == '"' {
                    lemma_p_str_body_progress(s3.drop_first());
                }
            }
        }
    }
}

proof fn lemma_p_info_progress(s: Seq<char>)
    ensures
        p_info(s) matches Some(t) ==> t.1.len() < s.len(),
{
    reveal_strlit("{\"Vendor\":");
    reveal_strlit("{\"Model\":");
    reveal_strlit("{\"SerialNumber\":");
    reveal_strlit("\"LoopDetected\"");
    reveal_strlit("\"SuccessEnd\"");
    reveal_strlit("\"ErrorEnd\"");
    reveal_strlit("}");
    if p_lit(s, "{\"Vendor\":"@) is Some {
        let s1 = p_lit(s, "{\"Vendor\":"@)->0;
        if s1.len() > 0 && s1.first() == '"' {
            lemma_p_str_body_progress(s1.drop_first());
        }
    } else if p_lit(s, "{\"Model\":"@) is Some {
        let s1 = p_lit(s, "{\"Model\":"@)->0;
        if s1.len() > 0 && s1.first() == '"' {
            lemma_p_str_body_progress(s1.drop_first());
        }
    } else if p_lit(s, "{\"SerialNumber\":"@) is Some {
        let s1 = p_lit(s, "{\"SerialNumber\":"@)->0;
        if s1.len() > 0 && s1.first() == '"' {
            lemma_p_str_body_progress(s1.drop_first());
        }
    }
}

#[via_fn]
proof fn p_hist_items_decreases(s: Seq<char>) {
    reveal_strlit("]");
    reveal_strlit(",");
    lemma_p_hist_entry_progress(s);
}

#[via_fn]
proof fn p_info_items_decreases(s: Seq<char>) {
    reveal_strlit("]");
    reveal_strlit(",");
    lemma_p_info_progress(s);
}

proof fn lemma_char_bounds(c: char)
    ensures
        0 <= c as int,
{
}

proof fn lemma_lit_rt(p: Seq<char>, rest: Seq<char>)
    ensures
        p_lit(p + rest, p) == Some(rest),
{
    assert((p + rest).take(p.len() as int) =~= p);
    assert((p + rest).skip(p.len() as int) =~= rest);
}

proof fn lemma_not_starts(s: Seq<char>, p: Seq<char>, i: int)
    requires
        0 <= i < p.len(),
        i < s.len(),
        s[i] != p[i],
    ensures
        !starts_with(s, p),
{
    if starts_with(s, p) {
        assert(s.take(p.len() as int)[i] == s[i]);
    }
}

proof fn lemma_digits_rt(n: nat, rest: Seq<char>)
    requires
        rest.len() == 0 || !is_dec_digit(rest.first()),
    ensures
        p_digits(dec_seq(n) + rest) == Some((n as int, rest)),
{
    lemma_dec_seq(n);
    let e = dec_seq(n);
    let s = e + rest;
    assert(forall|j: int| 0 <= j < e.len() ==> s[j] == e[j] && is_dec_digit(#[trigger] s[j]));
    assert(e.len() == s.len() || !is_dec_digit(s[e.len() as int]));
    crate::trigger::lemma_digit_prefix(s, e.len() as int);
    assert(s.take(e.len() as int) =~= e);
    assert(s.skip(e.len() as int) =~= rest);
}

proof fn lemma_int_rt(n: int, rest: Seq<char>)
    requires
        i64::MIN as int <= n <= i64::MAX as int,
        rest.len() == 0 || !is_dec_digit(rest.first()),
    ensures
        p_int(enc_int(n) + rest) == Some((n, rest)),
{
    let s = enc_int(n) + rest;
    if n < 0 {
        let mag = (-n) as nat;
        lemma_dec_seq(mag);
        assert(s.first() == '-');
        assert(s.drop_first() =~= dec_seq(mag) + rest);
        lemma_digits_rt(mag, rest);
        assert(mag <= 0x8000000000000000);
    } else {
        lemma_dec_seq(n as nat);
        assert(s.first() == dec_seq(n as nat).first());
        assert(is_dec_digit(s.first()));
        assert(s.first() != '-');
        lemma_digits_rt(n as nat, rest);
    }
}

proof fn lemma_opt_int_rt(o: Option<int>, rest: Seq<char>)
    requires
        o matches Some(v) ==> i64::MIN as int <= v <= i64::MAX as int,
        rest.len() == 0 || !is_dec_digit(rest.first()),
    ensures
        p_opt_int(enc_opt_int(o) + rest) == Some((o, rest)),
{
    reveal_strlit("null");
    match o {
        None => {
            lemma_lit_rt("null"@, rest);
        },
        Some(v) => {
            let s = enc_int(v) + rest;
            if v < 0 {
                assert(s[0] == '-');
            } else {
                lemma_dec_seq(v as nat);
                assert(s[0] == dec_seq(v as nat).first());
                assert(is_dec_digit(s[0]));
            }
            assert(s[0] != 'n');
            lemma_not_starts(s, "null"@, 0);
            lemma_int_rt(v, rest);
        },
    }
}

proof fn lemma_hex_round(d: int)
    requires
        0 <= d < 16,
    ensures
        spec_hex_val(spec_hex_char(d)) == d,
{
}

#[verifier::rlimit(100)]
proof fn lemma_str_body_rt(content: Seq<char>, rest: Seq<char>)
    ensures
        p_str_body(esc_seq(content) + seq!['"'] + rest) == Some((content, rest)),
    decreases content.len(),
{
    let s = esc_seq(content) + seq!['"'] + rest;
    if content.len() == 0 {
        assert(esc_seq(content) =~= Seq::<char>::empty());
        assert(s =~= seq!['"'] + rest);
        assert(s.first() == '"');
        assert(s.drop_first() =~= rest);
    } else {
        let c = content.first();
        let t = content.drop_first();
        lemma_str_body_rt(t, rest);
        let inner = esc_seq(t) + seq!['"'] + rest;
        assert(esc_seq(content) == esc_char(c) + esc_seq(t));
        assert(s =~= esc_char(c) + inner);
        if c == '"' {
            assert(s.first() == '\\');
            assert(s[1] == '"');
            assert(s.len() >= 2);
            assert(s.skip(2) =~= inner);
            assert(seq!['"'] + t =~= content);
        } else if c == '\\' {
            assert(s.first() == '\\');
            assert(s[1] == '\\');
            assert(s.skip(2) =~= inner);
            assert(seq!['\\'] + t =~= content);
        } else if (c as int) < 32 {
            assert(s.first() == '\\');
            assert(s[1] == 'u');
            assert(s[2] == '0');
            assert(s[3] == '0');
            assert(s[4] == spec_hex_char(c as int / 16));
            assert(s[5] == spec_hex_char(c as int % 16));
            lemma_char_bounds(c);
            assert((c as int) >= 0);
            assert(0 <= c as int / 16 < 16);
            assert(0 <= c as int % 16 < 16);
            lemma_hex_round(c as int / 16);
            lemma_hex_round(c as int % 16);
            assert(spec_hex_val(s[4]) * 16 + spec_hex_val(s[5]) == c as int) by {
                assert((c as int / 16) * 16 + c as int % 16 == c as int);
            }
            assert((((c as int) as u8) as char) == c);
            assert(s.skip(6) =~= inner);
            assert(seq![c] + t =~= content);
        } else {
            assert(s.first() == c);
            assert(c != '"' && c != '\\');
            assert(s.drop_first() =~= inner);
            assert(seq![c] + t =~= content);
        }
    }
}

proof fn lemma_str_rt(content: Seq<char>, rest: Seq<char>)
    ensures
        p_str(enc_str(content) + rest) == Some((content, rest)),
{
    let s = enc_str(content) + rest;
    assert(s.first() == '"');
    assert(s.drop_first() =~= esc_seq(content) + seq!['"'] + rest);
    lemma_str_body_rt(content, rest);
}

proof fn lemma_bool_rt(b: bool, rest: Seq<char>)
    ensures
        p_bool(enc_bool(b) + rest) == Some((b, rest)),
{
    reveal_strlit("true");
    reveal_strlit("false");
    if b {
        lemma_lit_rt("true"@, rest);
    } else {
        let s = enc_bool(b) + rest;
        assert(s[0] == 'f');
        lemma_not_starts(s, "true"@, 0);
        lemma_lit_rt("false"@, rest);
    }
}

#[verifier::rlimit(100)]
proof fn lemma_info_rt(i: InfoV, rest: Seq<char>)
    ensures
        p_info(enc_info(i) + rest) == Some((i, rest)),
{
    reveal_strlit("{\"Vendor\":");
    reveal_strlit("{\"Model\":");
    reveal_strlit("{\"SerialNumber\":");
    reveal_strlit("\"LoopDetected\"");
    reveal_strlit("\"SuccessEnd\"");
    reveal_strlit("\"ErrorEnd\"");
    reveal_strlit("}");
    let s = enc_info(i) + rest;
    match i {
        InfoV::Vendor(v) => {
            assert(s =~= "{\"Vendor\":"@ + (enc_str(v) + ("}"@ + rest)));
            lemma_lit_rt("{\"Vendor\":"@, enc_str(v) + ("}"@ + rest));
            lemma_str_rt(v, "}"@ + rest);
            lemma_lit_rt("}"@, rest);
        },
        InfoV::Model(v) => {
            assert(s[2] == 'M');
            lemma_not_starts(s, "{\"Vendor\":"@, 2);
            assert(s =~= "{\"Model\":"@ + (enc_str(v) + ("}"@ + rest)));
            lemma_lit_rt("{\"Model\":"@, enc_str(v) + ("}"@ + rest));
            lemma_str_rt(v, "}"@ + rest);
            lemma_lit_rt("}"@, rest);
        },
        InfoV::SerialNumber(v) => {
            assert(s[2] == 'S');
            lemma_not_starts(s, "{\"Vendor\":"@, 2);
            lemma_not_starts(s, "{\"Model\":"@, 2);
            assert(s =~= "{\"SerialNumber\":"@ + (enc_str(v) + ("}"@ + rest)));
            lemma_lit_rt("{\"SerialNumber\":"@, enc_str(v) + ("}"@ + rest));
            lemma_str_rt(v, "}"@ + rest);
            lemma_lit_rt("}"@, rest);
        },
        InfoV::LoopDetected => {
            assert(s[0] == '"');
            lemma_not_starts(s, "{\"Vendor\":"@, 0);
            lemma_not_starts(s, "{\"Model\":"@, 0);
            lemma_not_starts(s, "{\"SerialNumber\":"@, 0);
            lemma_lit_rt("\"LoopDetected\""@, rest);
        },
        InfoV::SuccessEnd => {
            assert(s[0] == '"');
            assert(s[1] == 'S');
            lemma_not_starts(s, "{\"Vendor\":"@, 0);
            lemma_not_starts(s, "{\"Model\":"@, 0);
            lemma_not_starts(s, "{\"SerialNumber\":"@, 0);
            lemma_not_starts(s, "\"LoopDetected\""@, 1);
            lemma_lit_rt("\"SuccessEnd\""@, rest);
        },
        InfoV::ErrorEnd => {
            assert(s[0] == '"');
            assert(s[1] == 'E');
            lemma_not_starts(s, "{\"Vendor\":"@, 0);
            lemma_not_starts(s, "{\"Model\":"@, 0);
            lemma_not_starts(s, "{\"SerialNumber\":"@, 0);
            lemma_not_starts(s, "\"LoopDetected\""@, 1);
            lemma_not_starts(s, "\"SuccessEnd\""@, 1);
            lemma_lit_rt("\"ErrorEnd\""@, rest);
        },
    }
}

/// Whether a history entry's timestamp fits `i64`.
pub open spec fn hist_ints_ok(s: Seq<(int, Seq<char>)>) -> bool {
    forall|k: int|
        0 <= k < s.len() ==> i64::MIN as int <= (#[trigger] s[k]).0 <= i64::MAX as int
}

#[verifier::rlimit(100)]
proof fn lemma_hist_entry_rt(e: (int, Seq<char>), rest: Seq<char>)
    requires
        i64::MIN as int <= e.0 <= i64::MAX as int,
    ensures
        p_hist_entry(enc_hist_entry(e) + rest) == Some((e, rest)),
{
    reveal_strlit("[");
    reveal_strlit(",");
    reveal_strlit("]");
    let s = enc_hist_entry(e) + rest;
    assert(s =~= "["@ + (enc_int(e.0) + (","@ + (enc_str(e.1) + ("]"@ + rest)))));
    lemma_lit_rt("["@, enc_int(e.0) + (","@ + (enc_str(e.1) + ("]"@ + rest))));
    assert((","@ + (enc_str(e.1) + ("]"@ + rest))).first() == ',');
    lemma_int_rt(e.0, ","@ + (enc_str(e.1) + ("]"@ + rest)));
    lemma_lit_rt(","@, enc_str(e.1) + ("]"@ + rest));
    lemma_str_rt(e.1, "]"@ + rest);
    lemma_lit_rt("]"@, rest);
}

#[verifier::rlimit(100)]
proof fn lemma_hist_items_rt(items: Seq<(int, Seq<char>)>, rest: Seq<char>)
    requires
        hist_ints_ok(items),
    ensures
        p_hist_items(enc_hist_items(items) + "]"@ + rest) == Some((items, rest)),
    decreases items.len(),
{
    reveal_strlit("[");
    reveal_strlit(",");
    reveal_strlit("]");
    let s = enc_hist_items(items) + "]"@ + rest;
    if items.len() == 0 {
        assert(enc_hist_items(items) =~= Seq::<char>::empty());
        assert(s =~= "]"@ + rest);
        lemma_lit_rt("]"@, rest);
        assert(Seq::<(int, Seq<char>)>::empty() =~= items);
    } else if items.len() == 1 {
        let e = items.first();
        assert(s =~= enc_hist_entry(e) + ("]"@ + rest));
        assert(s[0] == '[');
        lemma_not_starts(s, "]"@, 0);
        lemma_hist_entry_rt(e, "]"@ + rest);
        lemma_lit_rt("]"@, rest);
        assert(seq![e] =~= items);
    } else {
        let e = items.first();
        let t = items.drop_first();
        assert(hist_ints_ok(t)) by {
            assert(forall|k: int| 0 <= k < t.len() ==> #[trigger] t[k] == items[k + 1]);
        }
        let tail_text = enc_hist_items(t) + "]"@ + rest;
        assert(s =~= enc_hist_entry(e) + (","@ + tail_text));
        assert(s[0] == '[');
        lemma_not_starts(s, "]"@, 0);
        lemma_hist_entry_rt(e, ","@ + tail_text);
        let s2 = ","@ + tail_text;
        assert(s2[0] == ',');
        lemma_not_starts(s2, "]"@, 0);
        lemma_lit_rt(","@, tail_text);
        lemma_hist_items_rt(t, rest);
        assert(seq![e] + t =~= items);
    }
}

#[verifier::rlimit(100)]
proof fn lemma_info_items_rt(items: Seq<InfoV>, rest: Seq<char>)
    ensures
        p_info_items(enc_info_items(items) + "]"@ + rest) == Some((items, rest)),
    decreases items.len(),
{
    reveal_strlit("]");
    reveal_strlit(",");
    reveal_strlit("{\"Vendor\":");
    reveal_strlit("\"LoopDetected\"");
    reveal_strlit("\"SuccessEnd\"");
    reveal_strlit("\"ErrorEnd\"");
    reveal_strlit("{\"Model\":");
    reveal_strlit("{\"SerialNumber\":");
    let s = enc_info_items(items) + "]"@ + rest;
    if items.len() == 0 {
        assert(enc_info_items(items) =~= Seq::<char>::empty());
        assert(s =~= "]"@ + rest);
        lemma_lit_rt("]"@, rest);
        assert(Seq::<InfoV>::empty() =~= items);
    } else if items.len() == 1 {
        let e = items.first();
        assert(s =~= enc_info(e) + ("]"@ + rest));
        assert(s[0] == '{' || s[0] == '"');
        lemma_not_starts(s, "]"@, 0);
        lemma_info_rt(e, "]"@ + rest);
        lemma_lit_rt("]"@, rest);
        assert(seq![e] =~= items);
    } else {
        let e = items.first();
        let t = items.drop_first();
        let tail_text = enc_info_items(t) + "]"@ + rest;
        assert(s =~= enc_info(e) + (","@ + tail_text));
        assert(s[0] == '{' || s[0] == '"');
        lemma_not_starts(s, "]"@, 0);
        lemma_info_rt(e, ","@ + tail_text);
        let s2 = ","@ + tail_text;
        assert(s2[0] == ',');
        lemma_not_starts(s2, "]"@, 0);
        lemma_lit_rt(","@, tail_text);
        lemma_info_items_rt(t, rest);
        assert(seq![e] + t =~= items);
    }
}

/// Whether a record's timestamps fit `i64`.
pub open spec fn data_ints_ok(d: JobDataV) -> bool {
    &&& (d.job_started matches Some(v) ==> i64::MIN as int <= v <= i64::MAX as int)
    &&& (d.job_ended matches Some(v) ==> i64::MIN as int <= v <= i64::MAX as int)
    &&& hist_ints_ok(d.state_history)
}

#[verifier::rlimit(100)]
proof fn lemma_data_rt(d: JobDataV, rest: Seq<char>)
    requires
        data_ints_ok(d),
    ensures
        p_data(enc_data(d) + rest) == Some((d, rest)),
{
    reveal_strlit("{\"label\":");
    reveal_strlit(",\"job_started\":");
    reveal_strlit(",\"job_ended\":");
    reveal_strlit(",\"state_history\":[");
    reveal_strlit(",\"info_items\":[");
    reveal_strlit("],\"info_items\":[");
    reveal_strlit(",\"fatal\":");
    reveal_strlit("],\"fatal\":");
    reveal_strlit("}");
    reveal_strlit("]");
    let s = enc_data(d) + rest;
    let t7 = "}"@ + rest;
    let t6 = enc_bool(d.fatal) + t7;
    let t5 = ",\"fatal\":"@ + t6;
    let t4b = enc_info_items(d.info_items) + "]"@ + t5;
    let t4 = ",\"info_items\":["@ + t4b;
    let t3b = enc_hist_items(d.state_history) + "]"@ + t4;
    let t3 = ",\"state_history\":["@ + t3b;
    let t2b = enc_opt_int(d.job_ended) + t3;
    let t2 = ",\"job_ended\":"@ + t2b;
    let t1b = enc_opt_int(d.job_started) + t2;
    let t1 = ",\"job_started\":"@ + t1b;
    let t0 = enc_str(d.label) + t1;
    assert(s =~= "{\"label\":"@ + t0);
    lemma_lit_rt("{\"label\":"@, t0);
    lemma_str_rt(d.label, t1);
    lemma_lit_rt(",\"job_started\":"@, t1b);
    assert(t2.first() == ',');
    lemma_opt_int_rt(d.job_started, t2);
    lemma_lit_rt(",\"job_ended\":"@, t2b);
    assert(t3.first() == ',');
    lemma_opt_int_rt(d.job_ended, t3);
    lemma_lit_rt(",\"state_history\":["@, t3b);
    assert(t3b =~= enc_hist_items(d.state_history) + "]"@ + t4);
    lemma_hist_items_rt(d.state_history, t4);
    lemma_lit_rt(",\"info_items\":["@, t4b);
    assert(t4b =~= enc_info_items(d.info_items) + "]"@ + t5);
    lemma_info_items_rt(d.info_items, t5);
    lemma_lit_rt(",\"fatal\":"@, t6);
    lemma_bool_rt(d.fatal, t7);
    lemma_lit_rt("}"@, rest);
}

/// Whether a message's timestamps fit `i64`.
pub open spec fn update_ints_ok(u: UpdateV) -> bool {
    match u {
        UpdateV::JobStageTransition(ts, name) => i64::MIN as int <= ts <= i64::MAX as int,
        UpdateV::JobStart(ts) => i64::MIN as int <= ts <= i64::MAX as int,
        UpdateV::JobEnd(ts) => i64::MIN as int <= ts <= i64::MAX as int,
        UpdateV::JobNewInfoItem(i) => true,
        UpdateV::JobFullData(d) => data_ints_ok(d),
    }
}

#[verifier::rlimit(100)]
proof fn lemma_update_rt(u: UpdateV, rest: Seq<char>)
    requires
        update_ints_ok(u),
    ensures
        p_update(enc_update(u) + rest) == Some((u, rest)),
{
    reveal_strlit("{\"JobStageTransition\":[");
    reveal_strlit("{\"JobStart\":");
    reveal_strlit("{\"JobEnd\":");
    reveal_strlit("{\"JobNewInfoItem\":");
    reveal_strlit("{\"JobFullData\":");
    reveal_strlit(",");
    reveal_strlit("]}");
    reveal_strlit("}");
    let s = enc_update(u) + rest;
    match u {
        UpdateV::JobStageTransition(ts, name) => {
            let t2 = "]}"@ + rest;
            let t1b = enc_str(name) + t2;
            let t1 = ","@ + t1b;
            let t0 = enc_int(ts) + t1;
            assert(s =~= "{\"JobStageTransition\":["@ + t0);
            lemma_lit_rt("{\"JobStageTransition\":["@, t0);
            assert(t1.first() == ',');
            lemma_int_rt(ts, t1);
            lemma_lit_rt(","@, t1b);
            lemma_str_rt(name, t2);
            lemma_lit_rt("]}"@, rest);
        },
        UpdateV::JobStart(ts) => {
            let t1 = "}"@ + rest;
            let t0 = enc_int(ts) + t1;
            assert(s =~= "{\"JobStart\":"@ + t0);
            assert(s[8] == 'r');
            lemma_not_starts(s, "{\"JobStageTransition\":["@, 8);
            lemma_lit_rt("{\"JobStart\":"@, t0);
            assert(t1.first() == '}');
            lemma_int_rt(ts, t1);
            lemma_lit_rt("}"@, rest);
        },
        UpdateV::JobEnd(ts) => {
            let t1 = "}"@ + rest;
            let t0 = enc_int(ts) + t1;
            assert(s =~= "{\"JobEnd\":"@ + t0);
            assert(s[5] == 'E');
            lemma_not_starts(s, "{\"JobStageTransition\":["@, 5);
            lemma_not_starts(s, "{\"JobStart\":"@, 5);
            lemma_lit_rt("{\"JobEnd\":"@, t0);
            assert(t1.first() == '}');
            lemma_int_rt(ts, t1);
            lemma_lit_rt("}"@, rest);
        },
        UpdateV::JobNewInfoItem(i) => {
            let t1 = "}"@ + rest;
            let t0 = enc_info(i) + t1;
            assert(s =~= "{\"JobNewInfoItem\":"@ + t0);
            assert(s[5] == 'N');
            lemma_not_starts(s, "{\"JobStageTransition\":["@, 5);
            lemma_not_starts(s, "{\"JobStart\":"@, 5);
            lemma_not_starts(s, "{\"JobEnd\":"@, 5);
            lemma_lit_rt("{\"JobNewInfoItem\":"@, t0);
            lemma_info_rt(i, t1);
            lemma_lit_rt("}"@, rest);
        },
        UpdateV::JobFullData(d) => {
            let t1 = "}"@ + rest;
            let t0 = enc_data(d) + t1;
            assert(s =~= "{\"JobFullData\":"@ + t0);
            assert(s[5] == 'F');
            lemma_not_starts(s, "{\"JobStageTransition\":["@, 5);
            lemma_not_starts(s, "{\"JobStart\":"@, 5);
            lemma_not_starts(s, "{\"JobEnd\":"@, 5);
            lemma_not_starts(s, "{\"JobNewInfoItem\":"@, 5);
            lemma_lit_rt("{\"JobFullData\":"@, t0);
            lemma_data_rt(d, t1);
            lemma_lit_rt("}"@, rest);
        },
    }
}

/// An exec message's view always keeps its timestamps within `i64`.
pub proof fn lemma_update_view_ints_ok(u: &JobUpdate)
    ensures
        update_ints_ok(u@),
{
    match u {
        JobUpdate::JobFullData(d) => {
            assert forall|k: int| 0 <= k < d@.state_history.len() implies i64::MIN as int <= (
            #[trigger] d@.state_history[k]).0 <= i64::MAX as int by {
                assert(d@.state_history[k] == (d.state_history@[k].0 as int,
                d.state_history@[k].1@));
            }
        },
        _ => {},
    }
}

/// Round trip: decoding an encoded telemetry message yields an equal
/// message.
pub proof fn lemma_update_round_trip(u: UpdateV)
    requires
        update_ints_ok(u),
    ensures
        spec_decode_update(enc_update(u)) == Some(u),
{
    lemma_update_rt(u, Seq::empty());
    assert(enc_update(u) + Seq::<char>::empty() =~= enc_update(u));
}

/// Round trip: decoding an encoded command yields an equal command.
pub proof fn lemma_command_round_trip(c: JobCommand)
    ensures
        spec_decode_command(enc_command(c)) == Some(c),
{
    reveal_strlit("\"ResetJob\"");
    reveal_strlit("\"RestartAngel\"");
    reveal_strlit("\"GetJobData\"");
    let s = enc_command(c);
    match c {
        JobCommand::ResetJob => {
            lemma_lit_rt("\"ResetJob\""@, Seq::empty());
            assert("\"ResetJob\""@ + Seq::<char>::empty() =~= s);
        },
        JobCommand::RestartAngel => {
            assert(s[4] == 't');
            lemma_not_starts(s, "\"ResetJob\""@, 4);
            lemma_lit_rt("\"RestartAngel\""@, Seq::empty());
            assert("\"RestartAngel\""@ + Seq::<char>::empty() =~= s);
        },
        JobCommand::GetJobData => {
            assert(s[1] == 'G');
            lemma_not_starts(s, "\"ResetJob\""@, 1);
            lemma_not_starts(s, "\"RestartAngel\""@, 1);
            lemma_lit_rt("\"GetJobData\""@, Seq::empty());
            assert("\"GetJobData\""@ + Seq::<char>::empty() =~= s);
        },
    }
}

/// The value of an uppercase hex character.
fn hex_val(c: char) -> (r: Option<u8>)
    ensures
        match r {
            Some(v) => spec_hex_val(c) == v as int && v < 16,
            None => spec_hex_val(c) < 0,
        },
{
    if c >= '0' && c <= '9' {
        Some((c as u32 - 48) as u8)
    } else if c >= 'A' && c <= 'F' {
        Some((c as u32 - 55) as u8)
    } else {
        None
    }
}

/// Consumes the literal at `i`, if it is there.
#[verifier::loop_isolation(false)]
fn eat_lit(chars: &Vec<char>, i: usize, lit: &str) -> (r: Option<usize>)
    requires
        i <= chars@.len(),
    ensures
        match r {
            Some(j) => p_lit(chars@.skip(i as int), lit@) == Some(chars@.skip(j as int)) && i <= j
                <= chars@.len() && j - i == lit@.len(),
            None => p_lit(chars@.skip(i as int), lit@) is None,
        },
{
    let ghost s = chars@.skip(i as int);
    let n = lit.unicode_len();
    if n > chars.len() - i {
        proof {
            assert(!starts_with(s, lit@));
        }
        return None;
    }
    for j in 0..n
        invariant
            forall|k: int| 0 <= k < j ==> s[k] == lit@[k],
    {
        proof {
            assert(s[j as int] == chars@[i + j]);
        }
        if chars[i + j] != lit.get_char(j) {
            proof {
                if starts_with(s, lit@) {
                    assert(s.take(lit@.len() as int)[j as int] == s[j as int]);
                }
            }
            return None;
        }
    }
    proof {
        assert(s.take(lit@.len() as int) =~= lit@);
        assert(s.skip(lit@.len() as int) =~= chars@.skip(i as int + n as int));
    }
    Some(i + n)
}

/// Consumes a digit run at `i`: the accumulated value, whether it
/// overflowed `u64`, and the next position.
#[verifier::loop_isolation(false)]
fn parse_digits_at(chars: &Vec<char>, i: usize) -> (r: Option<(u64, bool, usize)>)
    requires
        i <= chars@.len(),
    ensures
        match r {
            Some(t) => {
                let pd = p_digits(chars@.skip(i as int));
                &&& pd is Some
                &&& i < t.2 <= chars@.len()
                &&& pd->Some_0.1 == chars@.skip(t.2 as int)
                &&& (t.1 ==> pd->Some_0.0 > u64::MAX as int)
                &&& (!t.1 ==> pd->Some_0.0 == t.0 as int)
            },
            None => p_digits(chars@.skip(i as int)) is None,
        },
{
    let ghost s = chars@.skip(i as int);
    let n = chars.len();
    let mut k: usize = i;
    let mut acc: u64 = 0;
    let mut overflow: bool = false;
    while k < n && chars[k] >= '0' && chars[k] <= '9'
        invariant
            i <= k <= n,
            forall|j: int| 0 <= j < k - i ==> is_dec_digit(#[trigger] s[j]),
            !overflow ==> acc as int == dec_val(s.take(k - i)),
            overflow ==> dec_val(s.take(k - i)) > u64::MAX as int,
        decreases n - k,
    {
        let ghost pre = s.take(k - i);
        let d: u64 = (chars[k] as u32 - 48) as u64;
        proof {
            assert(s[k - i] == chars@[k as int]);
            assert(s.take(k - i + 1).drop_last() =~= pre);
            assert(s.take(k - i + 1).last() == s[k - i]);
            assert(crate::numbers::all_dec_digits(pre));
            crate::trigger::lemma_dec_val_nonneg(pre);
        }
        if overflow {
            proof {
                assert(dec_val(s.take(k - i + 1)) == dec_val(pre) * 10 + d as int);
            }
        } else {
            match acc.checked_mul(10) {
                Some(t) => match t.checked_add(d) {
                    Some(t2) => {
                        acc = t2;
                    },
                    None => {
                        overflow = true;
                    },
                },
                None => {
                    overflow = true;
                },
            }
        }
        k = k + 1;
    }
    proof {
        crate::trigger::lemma_digit_prefix(s, k - i);
    }
    if k == i {
        return None;
    }
    proof {
        assert(s.skip(k - i) =~= chars@.skip(k as int));
    }
    Some((acc, overflow, k))
}

/// Consumes an integer at `i`, within `i64` range.
fn parse_int_at(chars: &Vec<char>, i: usize) -> (r: Option<(i64, usize)>)
    requires
        i <= chars@.len(),
    ensures
        match r {
            Some(t) => p_int(chars@.skip(i as int)) == Some(
                (t.0 as int, chars@.skip(t.1 as int)),
            ) && i < t.1 <= chars@.len(),
            None => p_int(chars@.skip(i as int)) is None,
        },
{
    let ghost s = chars@.skip(i as int);
    if i < chars.len() && chars[i] == '-' {
        proof {
            assert(s.first() == chars@[i as int]);
            assert(s.drop_first() =~= chars@.skip(i as int + 1));
        }
        match parse_digits_at(chars, i + 1) {
            None => None,
            Some((acc, of, j)) => {
                if of {
                    return None;
                }
                if acc <= 9223372036854775808u64 {
                    let v: i64 = (-(acc as i128)) as i64;
                    proof {
                        assert(v as int == -(acc as int));
                    }
                    Some((v, j))
                } else {
                    None
                }
            },
        }
    } else {
        proof {
            if s.len() > 0 {
                assert(s.first() == chars@[i as int]);
            }
        }
        match parse_digits_at(chars, i) {
            None => None,
            Some((acc, of, j)) => {
                if of {
                    return None;
                }
                if acc <= i64::MAX as u64 {
                    Some((acc as i64, j))
                } else {
                    None
                }
            },
        }
    }
}

/// Consumes `null` or an integer at `i`.
fn parse_opt_int_at(chars: &Vec<char>, i: usize) -> (r: Option<(Option<i64>, usize)>)
    requires
        i <= chars@.len(),
    ensures
        match r {
            Some(t) => p_opt_int(chars@.skip(i as int)) == Some(
                (
                    match t.0 {
                        Some(v) => Some(v as int),
                        None => None,
                    },
                    chars@.skip(t.1 as int),
                ),
            ) && i <= t.1 <= chars@.len(),
            None => p_opt_int(chars@.skip(i as int)) is None,
        },
{
    match eat_lit(chars, i, "null") {
        Some(j) => Some((None, j)),
        None => match parse_int_at(chars, i) {
            Some((v, j)) => Some((Some(v), j)),
            None => None,
        },
    }
}

/// Consumes `true` or `false` at `i`.
fn parse_bool_at(chars: &Vec<char>, i: usize) -> (r: Option<(bool, usize)>)
    requires
        i <= chars@.len(),
    ensures
        match r {
            Some(t) => p_bool(chars@.skip(i as int)) == Some((t.0, chars@.skip(t.1 as int))) && i
                <= t.1 <= chars@.len(),
            None => p_bool(chars@.skip(i as int)) is None,
        },
{
    match eat_lit(chars, i, "true") {
        Some(j) => Some((true, j)),
        None => match eat_lit(chars, i, "false") {
            Some(j) => Some((false, j)),
            None => None,
        },
    }
}

/// Consumes a quoted string at `i`, undoing the escapes.
#[verifier::loop_isolation(false)]
#[verifier::rlimit(100)]
fn parse_str_at(chars: &Vec<char>, i: usize) -> (r: Option<(String, usize)>)
    requires
        i <= chars@.len(),
    ensures
        match r {
            Some(t) => p_str(chars@.skip(i as int)) == Some((t.0@, chars@.skip(t.1 as int))) && i
                < t.1 <= chars@.len(),
            None => p_str(chars@.skip(i as int)) is None,
        },
{
    let n = chars.len();
    if i >= n || chars[i] != '"' {
        proof {
            if chars@.skip(i as int).len() > 0 {
                assert(chars@.skip(i as int).first() == chars@[i as int]);
            }
        }
        return None;
    }
    proof {
        assert(chars@.skip(i as int).first() == chars@[i as int]);
        assert(chars@.skip(i as int).drop_first() =~= chars@.skip(i as int + 1));
    }
    let ghost bs = i + 1 as int;
    let mut cur: usize = i + 1;
    let mut content: Vec<char> = Vec::new();
    loop
        invariant
            i + 1 <= cur <= n,
            n == chars@.len(),
            ({
                let whole = p_str_body(chars@.skip(i as int + 1));
                let here = p_str_body(chars@.skip(cur as int));
                &&& (here matches Some(p) ==> whole matches Some(w) && w.0 == content@ + p.0
                    && w.1 == p.1)
                &&& (here is None ==> whole is None)
            }),
        decreases n - cur,
    {
        let ghost here0 = chars@.skip(cur as int);
        if cur == n {
            proof {
                assert(here0.len() == 0);
            }
            return None;
        }
        proof {
            assert(here0.first() == chars@[cur as int]);
        }
        let c = chars[cur];
        if c == '"' {
            proof {
                assert(here0.drop_first() =~= chars@.skip(cur as int + 1));
                assert(content@ + Seq::<char>::empty() =~= content@);
            }
            let out = chars_to_string(&content);
            return Some((out, cur + 1));
        } else if c == '\\' {
            if cur + 1 == n {
                proof {
                    assert(here0.len() < 2);
                }
                return None;
            }
            proof {
                assert(here0[1] == chars@[cur as int + 1]);
            }
            let c2 = chars[cur + 1];
            if c2 == '"' {
                proof {
                    assert(here0.skip(2) =~= chars@.skip(cur as int + 2));
                    lemma_body_cons_shift(chars@, i as int, cur as int, content@, '"', 2);
                }
                content.push('"');
                cur = cur + 2;
            } else if c2 == '\\' {
                proof {
                    assert(here0.skip(2) =~= chars@.skip(cur as int + 2));
                    lemma_body_cons_shift(chars@, i as int, cur as int, content@, '\\', 2);
                }
                content.push('\\');
                cur = cur + 2;
            } else if c2 == 'u' {
                if n - cur < 6 {
                    proof {
                        assert(here0.len() < 6);
                    }
                    return None;
                }
                proof {
                    assert(here0[2] == chars@[cur as int + 2]);
                    assert(here0[3] == chars@[cur as int + 3]);
                    assert(here0[4] == chars@[cur as int + 4]);
                    assert(here0[5] == chars@[cur as int + 5]);
                }
                if chars[cur + 2] != '0' || chars[cur + 3] != '0' {
                    return None;
                }
                let h1 = match hex_val(chars[cur + 4]) {
                    Some(v) => v,
                    None => {
                        return None;
                    },
                };
                let h0 = match hex_val(chars[cur + 5]) {
                    Some(v) => v,
                    None => {
                        return None;
                    },
                };
                let code: u8 = h1 * 16 + h0;
                if code >= 32 {
                    return None;
                }
                let decoded: char = code as char;
                proof {
                    assert(decoded == ((spec_hex_val(here0[4]) * 16 + spec_hex_val(here0[5]))
                        as u8) as char);
                    assert(here0.skip(6) =~= chars@.skip(cur as int + 6));
                    lemma_body_cons_shift(chars@, i as int, cur as int, content@, decoded, 6);
                }
                content.push(decoded);
                cur = cur + 6;
            } else {
                return None;
            }
        } else {
            proof {
                assert(here0.drop_first() =~= chars@.skip(cur as int + 1));
                lemma_body_cons_shift(chars@, i as int, cur as int, content@, c, 1);
            }
            content.push(c);
            cur = cur + 1;
        }
    }
}

/// One step of the string loop: consuming one decoded character shifts
/// the continuation.
proof fn lemma_body_cons_shift(
    chars: Seq<char>,
    i: int,
    cur: int,
    content: Seq<char>,
    c: char,
    width: int,
)
    requires
        0 <= i < cur,
        cur + width <= chars.len(),
        width >= 1,
        p_str_body(chars.skip(cur)) == match p_str_body(chars.skip(cur + width)) {
            Some((t, r)) => Some::<(Seq<char>, Seq<char>)>((seq![c] + t, r)),
            None => None::<(Seq<char>, Seq<char>)>,
        },
        ({
            let whole = p_str_body(chars.skip(i + 1));
            let here = p_str_body(chars.skip(cur));
            &&& (here matches Some(p) ==> whole matches Some(w) && w.0 == content + p.0 && w.1
                == p.1)
            &&& (here is None ==> whole is None)
        }),
    ensures
        ({
            let whole = p_str_body(chars.skip(i + 1));
            let next = p_str_body(chars.skip(cur + width));
            &&& (next matches Some(p) ==> whole matches Some(w) && w.0 == (content.push(c)) + p.0
                && w.1 == p.1)
            &&& (next is None ==> whole is None)
        }),
{
    let next = p_str_body(chars.skip(cur + width));
    match next {
        Some(p) => {
            assert(content + (seq![c] + p.0) =~= (content.push(c)) + p.0);
        },
        None => {},
    }
}

/// Consumes one recorded fact at `i`.
#[verifier::rlimit(100)]
fn parse_info_at(chars: &Vec<char>, i: usize) -> (r: Option<(DeviceInformation, usize)>)
    requires
        i <= chars@.len(),
    ensures
        match r {
            Some(t) => p_info(chars@.skip(i as int)) == Some((t.0@, chars@.skip(t.1 as int))) && i
                < t.1 <= chars@.len(),
            None => p_info(chars@.skip(i as int)) is None,
        },
{
    proof {
        reveal_strlit("{\"Vendor\":");
        reveal_strlit("{\"Model\":");
        reveal_strlit("{\"SerialNumber\":");
        reveal_strlit("\"LoopDetected\"");
        reveal_strlit("\"SuccessEnd\"");
        reveal_strlit("\"ErrorEnd\"");
        reveal_strlit("}");
    }
    if let Some(j) = eat_lit(chars, i, "{\"Vendor\":") {
        match parse_str_at(chars, j) {
            None => None,
            Some((v, j2)) => match eat_lit(chars, j2, "}") {
                None => None,
                Some(j3) => Some((DeviceInformation::Vendor(v), j3)),
            },
        }
    } else if let Some(j) = eat_lit(chars, i, "{\"Model\":") {
        match parse_str_at(chars, j) {
            None => None,
            Some((v, j2)) => match eat_lit(chars, j2, "}") {
                None => None,
                Some(j3) => Some((DeviceInformation::Model(v), j3)),
            },
        }
    } else if let Some(j) = eat_lit(chars, i, "{\"SerialNumber\":") {
        match parse_str_at(chars, j) {
            None => None,
            Some((v, j2)) => match eat_lit(chars, j2, "}") {
                None => None,
                Some(j3) => Some((DeviceInformation::SerialNumber(v), j3)),
            },
        }
    } else if let Some(j) = eat_lit(chars, i, "\"LoopDetected\"") {
        Some((DeviceInformation::LoopDetected, j))
    } else if let Some(j) = eat_lit(chars, i, "\"SuccessEnd\"") {
        Some((DeviceInformation::SuccessEnd, j))
    } else if let Some(j) = eat_lit(chars, i, "\"ErrorEnd\"") {
        Some((DeviceInformation::ErrorEnd, j))
    } else {
        None
    }
}

/// Consumes one history entry at `i`.
fn parse_hist_entry_at(chars: &Vec<char>, i: usize) -> (r: Option<((i64, String), usize)>)
    requires
        i <= chars@.len(),
    ensures
        match r {
            Some(t) => p_hist_entry(chars@.skip(i as int)) == Some(
                ((t.0.0 as int, t.0.1@), chars@.skip(t.1 as int)),
            ) && i < t.1 <= chars@.len(),
            None => p_hist_entry(chars@.skip(i as int)) is None,
        },
{
    proof {
        reveal_strlit("[");
        reveal_strlit(",");
        reveal_strlit("]");
    }
    match eat_lit(chars, i, "[") {
        None => None,
        Some(j1) => match parse_int_at(chars, j1) {
            None => None,
            Some((ts, j2)) => match eat_lit(chars, j2, ",") {
                None => None,
                Some(j3) => match parse_str_at(chars, j3) {
                    None => None,
                    Some((name, j4)) => match eat_lit(chars, j4, "]") {
                        None => None,
                        Some(j5) => Some(((ts, name), j5)),
                    },
                },
            },
        },
    }
}

/// Consumes history entries up to and including the closing bracket.
#[verifier::loop_isolation(false)]
#[verifier::rlimit(100)]
fn parse_hist_items_at(chars: &Vec<char>, i: usize) -> (r: Option<(Vec<(i64, String)>, usize)>)
    requires
        i <= chars@.len(),
    ensures
        match r {
            Some(t) => p_hist_items(chars@.skip(i as int)) == Some(
                (crate::job::hist_view(t.0@), chars@.skip(t.1 as int)),
            ) && i < t.1 <= chars@.len(),
            None => p_hist_items(chars@.skip(i as int)) is None,
        },
{
    proof {
        reveal_strlit("]");
        reveal_strlit(",");
    }
    let n = chars.len();
    let mut cur: usize = i;
    let mut out: Vec<(i64, String)> = Vec::new();
    proof {
        if p_hist_items(chars@.skip(i as int)) is Some {
            let p = p_hist_items(chars@.skip(i as int))->Some_0;
            assert(crate::job::hist_view(out@) + p.0 =~= p.0);
        }
    }
    loop
        invariant
            i <= cur <= n,
            n == chars@.len(),
            ({
                let whole = p_hist_items(chars@.skip(i as int));
                let here = p_hist_items(chars@.skip(cur as int));
                &&& (here matches Some(p) ==> whole matches Some(w) && w.0
                    == crate::job::hist_view(out@) + p.0 && w.1 == p.1)
                &&& (here is None ==> whole is None)
            }),
        decreases n - cur,
    {
        let ghost here0 = chars@.skip(cur as int);
        if let Some(j) = eat_lit(chars, cur, "]") {
            proof {
                assert(crate::job::hist_view(out@) + Seq::<(int, Seq<char>)>::empty()
                    =~= crate::job::hist_view(out@));
            }
            return Some((out, j));
        }
        match parse_hist_entry_at(chars, cur) {
            None => {
                return None;
            },
            Some((e, j2)) => {
                let ghost ev = (e.0 as int, e.1@);
                if let Some(j3) = eat_lit(chars, j2, "]") {
                    let ghost outv0 = crate::job::hist_view(out@);
                    out.push(e);
                    proof {
                        assert(crate::job::hist_view(out@) =~= outv0.push(ev));
                        assert(outv0 + seq![ev] =~= outv0.push(ev));
                    }
                    return Some((out, j3));
                }
                match eat_lit(chars, j2, ",") {
                    None => {
                        return None;
                    },
                    Some(j4) => {
                        let ghost outv0 = crate::job::hist_view(out@);
                        proof {
                            let here = p_hist_items(here0);
                            let next = p_hist_items(chars@.skip(j4 as int));
                            if next is Some {
                                let p = next->Some_0;
                                assert(outv0 + (seq![ev] + p.0) =~= outv0.push(ev) + p.0);
                            }
                        }
                        out.push(e);
                        proof {
                            assert(crate::job::hist_view(out@) =~= outv0.push(ev));
                        }
                        cur = j4;
                    },
                }
            },
        }
    }
}

/// Consumes info items up to and including the closing bracket.
#[verifier::loop_isolation(false)]
#[verifier::rlimit(100)]
fn parse_info_items_at(chars: &Vec<char>, i: usize) -> (r: Option<(
    Vec<DeviceInformation>,
    usize,
)>)
    requires
        i <= chars@.len(),
    ensures
        match r {
            Some(t) => p_info_items(chars@.skip(i as int)) == Some(
                (crate::job::items_view(t.0@), chars@.skip(t.1 as int)),
            ) && i < t.1 <= chars@.len(),
            None => p_info_items(chars@.skip(i as int)) is None,
        },
{
    proof {
        reveal_strlit("]");
        reveal_strlit(",");
    }
    let n = chars.len();
    let mut cur: usize = i;
    let mut out: Vec<DeviceInformation> = Vec::new();
    proof {
        if p_info_items(chars@.skip(i as int)) is Some {
            let p = p_info_items(chars@.skip(i as int))->Some_0;
            assert(crate::job::items_view(out@) + p.0 =~= p.0);
        }
    }
    loop
        invariant
            i <= cur <= n,
            n == chars@.len(),
            ({
                let whole = p_info_items(chars@.skip(i as int));
                let here = p_info_items(chars@.skip(cur as int));
                &&& (here matches Some(p) ==> whole matches Some(w) && w.0
                    == crate::job::items_view(out@) + p.0 && w.1 == p.1)
                &&& (here is None ==> whole is None)
            }),
        decreases n - cur,
    {
        let ghost here0 = chars@.skip(cur as int);
        if let Some(j) = eat_lit(chars, cur, "]") {
            proof {
                assert(crate::job::items_view(out@) + Seq::<InfoV>::empty()
                    =~= crate::job::items_view(out@));
            }
            return Some((out, j));
        }
        match parse_info_at(chars, cur) {
            None => {
                return None;
            },
            Some((e, j2)) => {
                let ghost ev = e@;
                if let Some(j3) = eat_lit(chars, j2, "]") {
                    let ghost outv0 = crate::job::items_view(out@);
                    out.push(e);
                    proof {
                        assert(crate::job::items_view(out@) =~= outv0.push(ev));
                        assert(outv0 + seq![ev] =~= outv0.push(ev));
                    }
                    return Some((out, j3));
                }
                match eat_lit(chars, j2, ",") {
                    None => {
                        return None;
                    },
                    Some(j4) => {
                        let ghost outv0 = crate::job::items_view(out@);
                        proof {
                            let next = p_info_items(chars@.skip(j4 as int));
                            if next is Some {
                                let p = next->Some_0;
                                assert(outv0 + (seq![ev] + p.0) =~= outv0.push(ev) + p.0);
                            }
                        }
                        out.push(e);
                        proof {
                            assert(crate::job::items_view(out@) =~= outv0.push(ev));
                        }
                        cur = j4;
                    },
                }
            },
        }
    }
}

/// Consumes a whole record at `i`.
#[verifier::rlimit(100)]
fn parse_data_at(chars: &Vec<char>, i: usize) -> (r: Option<(JobData, usize)>)
    requires
        i <= chars@.len(),
    ensures
        match r {
            Some(t) => p_data(chars@.skip(i as int)) == Some((t.0@, chars@.skip(t.1 as int))) && i
                < t.1 <= chars@.len(),
            None => p_data(chars@.skip(i as int)) is None,
        },
{
    proof {
        reveal_strlit("{\"label\":");
        reveal_strlit(",\"job_started\":");
        reveal_strlit(",\"job_ended\":");
        reveal_strlit(",\"state_history\":[");
        reveal_strlit(",\"info_items\":[");
        reveal_strlit(",\"fatal\":");
        reveal_strlit("}");
    }
    let j1 = match eat_lit(chars, i, "{\"label\":") {
        Some(j) => j,
        None => {
            return None;
        },
    };
    let (label, j2) = match parse_str_at(chars, j1) {
        Some(t) => t,
        None => {
            return None;
        },
    };
    let j3 = match eat_lit(chars, j2, ",\"job_started\":") {
        Some(j) => j,
        None => {
            return None;
        },
    };
    let (started, j4) = match parse_opt_int_at(chars, j3) {
        Some(t) => t,
        None => {
            return None;
        },
    };
    let j5 = match eat_lit(chars, j4, ",\"job_ended\":") {
        Some(j) => j,
        None => {
            return None;
        },
    };
    let (ended, j6) = match parse_opt_int_at(chars, j5) {
        Some(t) => t,
        None => {
            return None;
        },
    };
    let j7 = match eat_lit(chars, j6, ",\"state_history\":[") {
        Some(j) => j,
        None => {
            return None;
        },
    };
    let (hist, j8) = match parse_hist_items_at(chars, j7) {
        Some(t) => t,
        None => {
            return None;
        },
    };
    let j9 = match eat_lit(chars, j8, ",\"info_items\":[") {
        Some(j) => j,
        None => {
            return None;
        },
    };
    let (infos, j10) = match parse_info_items_at(chars, j9) {
        Some(t) => t,
        None => {
            return None;
        },
    };
    let j11 = match eat_lit(chars, j10, ",\"fatal\":") {
        Some(j) => j,
        None => {
            return None;
        },
    };
    let (fatal, j12) = match parse_bool_at(chars, j11) {
        Some(t) => t,
        None => {
            return None;
        },
    };
    let j13 = match eat_lit(chars, j12, "}") {
        Some(j) => j,
        None => {
            return None;
        },
    };
    let d = JobData {
        label,
        job_started: started,
        job_ended: ended,
        state_history: hist,
        info_items: infos,
        fatal,
    };
    Some((d, j13))
}

/// Consumes one telemetry message at `i`.
#[verifier::rlimit(100)]
fn parse_update_at(chars: &Vec<char>, i: usize) -> (r: Option<(JobUpdate, usize)>)
    requires
        i <= chars@.len(),
    ensures
        match r {
            Some(t) => p_update(chars@.skip(i as int)) == Some(
                (t.0@, chars@.skip(t.1 as int)),
            ) && i < t.1 <= chars@.len(),
            None => p_update(chars@.skip(i as int)) is None,
        },
{
    proof {
        reveal_strlit("{\"JobStageTransition\":[");
        reveal_strlit("{\"JobStart\":");
        reveal_strlit("{\"JobEnd\":");
        reveal_strlit("{\"JobNewInfoItem\":");
        reveal_strlit("{\"JobFullData\":");
        reveal_strlit(",");
        reveal_strlit("]}");
        reveal_strlit("}");
    }
    if let Some(j) = eat_lit(chars, i, "{\"JobStageTransition\":[") {
        match parse_int_at(chars, j) {
            None => None,
            Some((ts, j2)) => match eat_lit(chars, j2, ",") {
                None => None,
                Some(j3) => match parse_str_at(chars, j3) {
                    None => None,
                    Some((name, j4)) => match eat_lit(chars, j4, "]}") {
                        None => None,
                        Some(j5) => Some((JobUpdate::JobStageTransition(ts, name), j5)),
                    },
                },
            },
        }
    } else if let Some(j) = eat_lit(chars, i, "{\"JobStart\":") {
        match parse_int_at(chars, j) {
            None => None,
            Some((ts, j2)) => match eat_lit(chars, j2, "}") {
                None => None,
                Some(j3) => Some((JobUpdate::JobStart(ts), j3)),
            },
        }
    } else if let Some(j) = eat_lit(chars, i, "{\"JobEnd\":") {
        match parse_int_at(chars, j) {
            None => None,
            Some((ts, j2)) => match eat_lit(chars, j2, "}") {
                None => None,
                Some(j3) => Some((JobUpdate::JobEnd(ts), j3)),
            },
        }
    } else if let Some(j) = eat_lit(chars, i, "{\"JobNewInfoItem\":") {
        match parse_info_at(chars, j) {
            None => None,
            Some((info, j2)) => match eat_lit(chars, j2, "}") {
                None => None,
                Some(j3) => Some((JobUpdate::JobNewInfoItem(info), j3)),
            },
        }
    } else if let Some(j) = eat_lit(chars, i, "{\"JobFullData\":") {
        match parse_data_at(chars, j) {
            None => None,
            Some((d, j2)) => match eat_lit(chars, j2, "}") {
                None => None,
                Some(j3) => Some((JobUpdate::JobFullData(d), j3)),
            },
        }
    } else {
        None
    }
}

/// Decodes one telemetry payload: the encoder's inverse.
pub fn decode_update(s: &str) -> (r: Option<JobUpdate>)
    ensures
        match r {
            Some(u) => spec_decode_update(s@) == Some(u@),
            None => spec_decode_update(s@) is None,
        },
{
    let chars = str_chars(s);
    proof {
        assert(chars@.skip(0) =~= s@);
    }
    match parse_update_at(&chars, 0) {
        None => None,
        Some((u, j)) => {
            if j == chars.len() {
                proof {
                    assert(chars@.skip(j as int).len() == 0);
                }
                Some(u)
            } else {
                proof {
                    assert(chars@.skip(j as int).len() > 0);
                }
                None
            }
        },
    }
}

/// Decodes one command payload: the encoder's inverse.
pub fn decode_command(s: &str) -> (r: Option<JobCommand>)
    ensures
        match r {
            Some(c) => spec_decode_command(s@) == Some(c),
            None => spec_decode_command(s@) is None,
        },
{
    let chars = str_chars(s);
    proof {
        assert(chars@.skip(0) =~= s@);
    }
    let (c, j) = if let Some(j) = eat_lit(&chars, 0, "\"ResetJob\"") {
        (JobCommand::ResetJob, j)
    } else if let Some(j) = eat_lit(&chars, 0, "\"RestartAngel\"") {
        (JobCommand::RestartAngel, j)
    } else if let Some(j) = eat_lit(&chars, 0, "\"GetJobData\"") {
        (JobCommand::GetJobData, j)
    } else {
        return None;
    };
    if j == chars.len() {
        proof {
            assert(chars@.skip(j as int).len() == 0);
        }
        Some(c)
    } else {
        proof {
            assert(chars@.skip(j as int).len() > 0);
        }
        None
    }
}

} // verus!
