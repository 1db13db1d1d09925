//! The broker's topic layout: `cthulhu/<label>/update` for telemetry,
//! `cthulhu/<label>/command` for commands.

use vstd::prelude::*;
use vstd::string::StringExecFns;
use crate::text::{chars_to_string, str_chars};

verus! {

/// The update topic of a label.
pub open spec fn spec_topic_update(label: Seq<char>) -> Seq<char> {
    "cthulhu/"@ + label + "/update"@
}

/// The command topic of a label.
pub open spec fn spec_topic_command(label: Seq<char>) -> Seq<char> {
    "cthulhu/"@ + label + "/command"@
}

/// Builds the update topic of a label.
pub fn topic_update(label: &str) -> (r: String)
    ensures
        r@ == spec_topic_update(label@),
{
    let mut r = String::from_str("cthulhu/");
    r.append(label);
    r.append("/update");
    r
}

/// Builds the command topic of a label.
pub fn topic_command(label: &str) -> (r: String)
    ensures
        r@ == spec_topic_command(label@),
{
    let mut r = String::from_str("cthulhu/");
    r.append(label);
    r.append("/command");
    r
}

/// What an update topic denotes: the label between the fixed prefix and
/// suffix, non-empty and free of slashes.
pub open spec fn spec_parse_update_topic(t: Seq<char>) -> Option<Seq<char>> {
    let p = "cthulhu/"@;
    let s = "/update"@;
    if t.len() > p.len() + s.len() && t.take(p.len() as int) == p && t.skip(
        t.len() - s.len(),
    ) == s && (forall|i: int|
        p.len() <= i < t.len() - s.len() ==> t[i] != '/') {
        Some(t.subrange(p.len() as int, t.len() - s.len()))
    } else {
        None
    }
}

/// Reads the label out of an update topic.
#[verifier::loop_isolation(false)]
#[verifier::rlimit(100)]
pub fn parse_update_topic(topic: &str) -> (r: Option<String>)
    ensures
        match r {
            Some(label) => spec_parse_update_topic(topic@) == Some(label@),
            None => spec_parse_update_topic(topic@) is None,
        },
{
    proof {
        reveal_strlit("cthulhu/");
        reveal_strlit("/update");
    }
    let chars = str_chars(topic);
    let n = chars.len();
    if n < 16 {
        proof {
            assert(topic@.len() <= "cthulhu/"@.len() + "/update"@.len());
        }
        return None;
    }
    let prefix = str_chars("cthulhu/");
    for i in 0..8usize
        invariant
            forall|j: int| 0 <= j < i ==> topic@[j] == "cthulhu/"@[j],
    {
        if chars[i] != prefix[i] {
            proof {
                if topic@.take(8) == "cthulhu/"@ {
                    assert(topic@.take(8)[i as int] == topic@[i as int]);
                }
            }
            return None;
        }
    }
    let suffix = str_chars("/update");
    for i in 0..7usize
        invariant
            forall|j: int| 0 <= j < i ==> topic@[n - 7 + j] == "/update"@[j],
    {
        if chars[n - 7 + i] != suffix[i] {
            proof {
                if topic@.skip(n - 7) == "/update"@ {
                    assert(topic@.skip(n - 7)[i as int] == topic@[n - 7 + i]);
                }
            }
            return None;
        }
    }
    let mut label: Vec<char> = Vec::new();
    let hi = n - 7;
    for i in 8..hi
        invariant
            8 <= hi <= n,
            n == topic@.len(),
            label@ =~= topic@.subrange(8, i as int),
            forall|j: int| 8 <= j < i ==> topic@[j] != '/',
    {
        if chars[i] == '/' {
            return None;
        }
        label.push(chars[i]);
        proof {
            assert(label@ =~= topic@.subrange(8, i as int + 1));
        }
    }
    proof {
        assert(topic@.take(8) =~= "cthulhu/"@);
        assert(topic@.skip(n - 7) =~= "/update"@);
    }
    Some(chars_to_string(&label))
}

} // verus!
