//! Triggers: what makes a transition fire, and the duration grammar for
//! timeout triggers.

use vstd::prelude::*;
use vstd::utf8::encode_utf8;
use crate::numbers::{all_dec_digits, dec_val, is_dec_digit};
use crate::rx::{regex_find_spec, RegexNeedle};
use crate::text::str_chars;

verus! {

/// What makes a transition fire.
#[derive(Debug)]
pub enum Trigger {
    /// Fires without reading input; takes precedence when present.
    Immediate,
    /// Fires on the first occurrence of this substring in the rolling
    /// buffer.
    Literal(String),
    /// Fires on the first match of this compiled regex in the rolling
    /// buffer.
    Regex(RegexNeedle),
    /// Fires after this many milliseconds with no other match.
    Timeout(u64),
}

/// Where `needle` first occurs in `hay` at or after `from`.
pub open spec fn spec_occurrence_from(hay: Seq<u8>, needle: Seq<u8>, from: int) -> Option<int>
    decreases hay.len() - from,
    via spec_occurrence_from_decreases
{
    if from < 0 || from + needle.len() > hay.len() {
        None
    } else if hay.subrange(from, from + needle.len() as int) == needle {
        Some(from)
    } else {
        spec_occurrence_from(hay, needle, from + 1)
    }
}

#[via_fn]
proof fn spec_occurrence_from_decreases(hay: Seq<u8>, needle: Seq<u8>, from: int) {
    if !(from < 0 || from + needle.len() > hay.len()) && needle.len() == 0 {
        assert(hay.subrange(from, from + needle.len() as int) =~= needle);
    }
}

/// An occurrence lies within the haystack and carries the needle.
pub proof fn lemma_occurrence_bounds(hay: Seq<u8>, needle: Seq<u8>, from: int)
    ensures
        spec_occurrence_from(hay, needle, from) matches Some(i) ==> from <= i && i + needle.len()
            <= hay.len() && hay.subrange(i, i + needle.len() as int) == needle,
    decreases hay.len() - from,
{
    if from < 0 || from + needle.len() > hay.len() {
    } else if hay.subrange(from, from + needle.len() as int) == needle {
    } else {
        if needle.len() == 0 {
            assert(hay.subrange(from, from + needle.len() as int) =~= needle);
        } else {
            lemma_occurrence_bounds(hay, needle, from + 1);
        }
    }
}

/// Where `needle` first occurs in `hay`.
pub open spec fn spec_first_occurrence(hay: Seq<u8>, needle: Seq<u8>) -> Option<int> {
    spec_occurrence_from(hay, needle, 0)
}

/// The byte span in the rolling buffer on which this trigger fires:
/// `Immediate` and `Timeout` never fire on input.
pub open spec fn spec_trig_span(t: Trigger, buf: Seq<u8>) -> Option<(int, int)> {
    match t {
        Trigger::Immediate => None,
        Trigger::Timeout(_) => None,
        Trigger::Literal(s) => match spec_first_occurrence(buf, encode_utf8(s@)) {
            Some(i) => Some((i, i + encode_utf8(s@).len() as int)),
            None => None,
        },
        Trigger::Regex(n) => regex_find_spec(n.pattern_view(), buf),
    }
}

/// The post-hoc tie-breaking predicate: whether this trigger can be
/// credited with the matched bytes the engine returned.
pub open spec fn spec_trig_matches(t: Trigger, matched: Seq<u8>) -> bool {
    match t {
        Trigger::Immediate => false,
        Trigger::Timeout(_) => false,
        Trigger::Literal(s) => matched == encode_utf8(s@),
        Trigger::Regex(n) => regex_find_spec(n.pattern_view(), matched) is Some,
    }
}

impl Trigger {
    /// Whether this trigger can be credited with the matched bytes.
    pub fn matches_bytes(&self, matched: &[u8]) -> (r: bool)
        ensures
            r == spec_trig_matches(*self, matched@),
    {
        match self {
            Trigger::Immediate => false,
            Trigger::Timeout(_) => false,
            Trigger::Literal(s) => bytes_eq(s.as_str().as_bytes(), matched),
            Trigger::Regex(n) => n.find(matched).is_some(),
        }
    }
}

/// Whether two byte strings are equal.
pub fn bytes_eq(a: &[u8], b: &[u8]) -> (r: bool)
    ensures
        r == (a@ == b@),
{
    if a.len() != b.len() {
        proof {
            assert(a@.len() != b@.len());
        }
        return false;
    }
    let n = a.len();
    for i in 0..n
        invariant
            n == a@.len() && n == b@.len(),
            forall|j: int| 0 <= j < i ==> a@[j] == b@[j],
    {
        if a[i] != b[i] {
            return false;
        }
    }
    proof {
        assert(a@ =~= b@);
    }
    true
}

/// The number of leading decimal digits of `s`.
pub open spec fn spec_digit_prefix_len(s: Seq<char>) -> int
    decreases s.len(),
{
    if s.len() == 0 || !is_dec_digit(s.first()) {
        0
    } else {
        1 + spec_digit_prefix_len(s.drop_first())
    }
}

/// Milliseconds per unit suffix, for the duration grammar
/// `<integer><unit>` with unit one of `ms`, `s`, `m`, `h`.
pub open spec fn spec_unit_millis(u: Seq<char>) -> Option<int> {
    if u == seq!['m', 's'] {
        Some(1)
    } else if u == seq!['s'] {
        Some(1000)
    } else if u == seq!['m'] {
        Some(60000)
    } else if u == seq!['h'] {
        Some(3600000)
    } else {
        None
    }
}

/// What a duration string denotes, in milliseconds: a non-empty digit run,
/// then a unit, with the product within `u64` range.
pub open spec fn spec_parse_duration(s: Seq<char>) -> Option<int> {
    let k = spec_digit_prefix_len(s);
    if k == 0 {
        None
    } else {
        match spec_unit_millis(s.skip(k)) {
            None => None,
            Some(mult) => {
                let v = dec_val(s.take(k)) * mult;
                if v > u64::MAX as int {
                    None
                } else {
                    Some(v)
                }
            },
        }
    }
}

/// The digit prefix length is pinned by its first non-digit.
pub proof fn lemma_digit_prefix(s: Seq<char>, i: int)
    requires
        0 <= i <= s.len(),
        forall|j: int| 0 <= j < i ==> is_dec_digit(#[trigger] s[j]),
        i == s.len() || !is_dec_digit(s[i]),
    ensures
        spec_digit_prefix_len(s) == i,
    decreases i,
{
    if s.len() == 0 {
    } else if i == 0 {
    } else {
        lemma_digit_prefix(s.drop_first(), i - 1);
    }
}

/// A digit run denotes a non-negative number.
pub proof fn lemma_dec_val_nonneg(s: Seq<char>)
    requires
        all_dec_digits(s),
    ensures
        dec_val(s) >= 0,
    decreases s.len(),
{
    if s.len() > 0 {
        assert(all_dec_digits(s.drop_last()));
        lemma_dec_val_nonneg(s.drop_last());
    }
}

/// Parses the duration grammar `<integer><unit>`, unit one of `ms`, `s`,
/// `m`, `h`, into milliseconds. Rejects an empty digit run, an unknown
/// unit, and a value beyond `u64`.
pub fn parse_duration(s: &str) -> (r: Option<u64>)
    ensures
        match r {
            Some(v) => spec_parse_duration(s@) == Some(v as int),
            None => spec_parse_duration(s@) is None,
        },
{
    let chars = str_chars(s);
    let n = chars.len();
    let mut k: usize = 0;
    let mut acc: u64 = 0;
    let mut overflow: bool = false;
    while k < n && chars[k] >= '0' && chars[k] <= '9'
        invariant
            n == chars@.len(),
            chars@ == s@,
            0 <= k <= n,
            forall|j: int| 0 <= j < k ==> is_dec_digit(#[trigger] s@[j]),
            !overflow ==> acc as int == dec_val(s@.take(k as int)),
            overflow ==> dec_val(s@.take(k as int)) > u64::MAX as int,
        decreases n - k,
    {
        let ghost pre = s@.take(k as int);
        let d: u64 = (chars[k] as u32 - 48) as u64;
        proof {
            assert(s@.take(k as int + 1).drop_last() =~= pre);
            assert(all_dec_digits(pre));
            lemma_dec_val_nonneg(pre);
        }
        if overflow {
            proof {
                assert(dec_val(s@.take(k as int + 1)) == dec_val(pre) * 10 + d as int);
            }
        } else {
            match acc.checked_mul(10) {
                Some(t) => match t.checked_add(d) {
                    Some(t2) => {
                        acc = t2;
                    },
                    None => {
                        overflow = true;
                    },
                },
                None => {
                    overflow = true;
                },
            }
        }
        k = k + 1;
    }
    proof {
        lemma_digit_prefix(s@, k as int);
    }
    if k == 0 {
        return None;
    }
    let rest = n - k;
    let mult: u64;
    if rest == 2 && chars[k] == 'm' && chars[k + 1] == 's' {
        proof {
            assert(s@.skip(k as int) =~= seq!['m', 's']);
            assert(spec_unit_millis(s@.skip(k as int)) == Some(1int));
        }
        mult = 1;
    } else if rest == 1 && chars[k] == 's' {
        proof {
            assert(s@.skip(k as int) =~= seq!['s']);
            assert(spec_unit_millis(s@.skip(k as int)) == Some(1000int));
        }
        mult = 1000;
    } else if rest == 1 && chars[k] == 'm' {
        proof {
            let u = s@.skip(k as int);
            assert(u =~= seq!['m']);
            assert(u[0] == 'm' && seq!['s'][0] == 's' && seq!['h'][0] == 'h');
            assert(spec_unit_millis(s@.skip(k as int)) == Some(60000int));
        }
        mult = 60000;
    } else if rest == 1 && chars[k] == 'h' {
        proof {
            let u = s@.skip(k as int);
            assert(u =~= seq!['h']);
            assert(u[0] == 'h' && seq!['s'][0] == 's' && seq!['m'][0] == 'm');
            assert(spec_unit_millis(s@.skip(k as int)) == Some(3600000int));
        }
        mult = 3600000;
    } else {
        proof {
            let u = s@.skip(k as int);
            assert(u.len() == rest as int);
            assert(spec_unit_millis(u) is None) by {
                if u == seq!['m', 's'] {
                    assert(u.len() == 2 && u[0] == 'm' && u[1] == 's');
                } else if u == seq!['s'] {
                    assert(u.len() == 1 && u[0] == 's');
                } else if u == seq!['m'] {
                    assert(u.len() == 1 && u[0] == 'm');
                } else if u == seq!['h'] {
                    assert(u.len() == 1 && u[0] == 'h');
                }
            }
        }
        return None;
    }
    if overflow {
        proof {
            let v = dec_val(s@.take(k as int)) * spec_unit_millis(s@.skip(k as int))->0;
            assert(v > u64::MAX as int);
        }
        return None;
    }
    proof {
        assert(spec_digit_prefix_len(s@) == k as int);
        assert(spec_unit_millis(s@.skip(k as int)) == Some(mult as int));
        assert(acc as int == dec_val(s@.take(k as int)));
    }
    match acc.checked_mul(mult) {
        Some(v) => Some(v),
        None => None,
    }
}

} // verus!
