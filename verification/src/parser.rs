//! Turning a model's free-form reply into directives. The strict JSON
//! reading is tried first; a reply that wraps one JSON object in commentary
//! is salvaged by taking the span from its first `{` to its last `}`. A
//! reply that still decodes to nothing fails with `ParseError` carrying the
//! raw text — nothing is guessed or repaired.

use crate::agent::{reply_of, spec_reply_of, spec_view_dirs, ModelResponse};
use crate::errors::AgentError;
use crate::json::{
    copy_range, lemma_skip_ws_bounds, parse_json, spec_parse_json, spec_skip_ws, SpecJson,
};
use vstd::prelude::*;

verus! {

/// The index of the first `{` at or after `i`.
pub open spec fn spec_first_brace(s: Seq<u8>, i: int) -> Option<int>
    decreases s.len() - i,
{
    if i < 0 || i >= s.len() {
        None
    } else if s[i] == 0x7b {
        Some(i)
    } else {
        spec_first_brace(s, i + 1)
    }
}

/// The index of the last `}` strictly before `i`.
pub open spec fn spec_last_brace(s: Seq<u8>, i: int) -> Option<int>
    decreases i,
{
    if i <= 0 || i > s.len() {
        None
    } else if s[i - 1] == 0x7d {
        Some(i - 1)
    } else {
        spec_last_brace(s, i - 1)
    }
}

/// The span from the first `{` to the last `}`, when both exist in order.
pub open spec fn spec_extracted(s: Seq<u8>) -> Option<Seq<u8>> {
    match (spec_first_brace(s, 0), spec_last_brace(s, s.len() as int)) {
        (Some(a), Some(b)) => if a <= b {
            Some(s.subrange(a, b + 1))
        } else {
            None
        },
        _ => None,
    }
}

/// The strict reading of a text, falling back once to the brace-delimited
/// span for replies wrapped in commentary.
pub open spec fn spec_parse_lenient(s: Seq<u8>) -> Option<SpecJson> {
    match spec_parse_json(s) {
        Some(v) => Some(v),
        None => match spec_extracted(s) {
            Some(sub) => spec_parse_json(sub),
            None => None,
        },
    }
}

/// The directives a whole reply text stands for, if any.
pub open spec fn spec_decode_reply(s: Seq<u8>) -> Option<
    Seq<(Seq<u8>, Seq<(Seq<u8>, SpecJson)>)>,
> {
    match spec_parse_lenient(s) {
        Some(v) => spec_reply_of(v),
        None => None,
    }
}

fn first_brace(s: &Vec<u8>) -> (r: Option<usize>)
    ensures
        match r {
            Some(a) => spec_first_brace(s@, 0) == Some(a as int) && a < s@.len(),
            None => spec_first_brace(s@, 0) is None,
        },
{
    let n = s.len();
    let mut i: usize = 0;
    while i < n
        invariant
            i <= n,
            n == s@.len(),
            spec_first_brace(s@, 0) == spec_first_brace(s@, i as int),
        decreases n - i,
    {
        if s[i] == 0x7b {
            return Some(i);
        }
        i = i + 1;
    }
    None
}

fn last_brace(s: &Vec<u8>) -> (r: Option<usize>)
    ensures
        match r {
            Some(b) => spec_last_brace(s@, s@.len() as int) == Some(b as int) && b < s@.len(),
            None => spec_last_brace(s@, s@.len() as int) is None,
        },
{
    let n = s.len();
    let mut i: usize = n;
    while i > 0
        invariant
            i <= n,
            n == s@.len(),
            spec_last_brace(s@, n as int) == spec_last_brace(s@, i as int),
        decreases i,
    {
        if s[i - 1] == 0x7d {
            return Some(i - 1);
        }
        i = i - 1;
    }
    None
}

/// Decodes one model reply into its directives. A reply that yields none
/// fails with `ParseError` holding the reply unchanged, and nothing has
/// been dispatched or sent on its account.
pub fn parse_reply(reply: Vec<u8>) -> (r: Result<ModelResponse, AgentError>)
    ensures
        match spec_decode_reply(reply@) {
            Some(ds) => (r matches Ok(m) && spec_view_dirs(m.mcp_requests@) == ds),
            None => (r matches Err(AgentError::ParseError(raw)) && raw@ == reply@),
        },
{
    match parse_json(&reply) {
        Some(v) => match reply_of(v) {
            Some(m) => Ok(m),
            None => Err(AgentError::ParseError(reply)),
        },
        None => {
            match (first_brace(&reply), last_brace(&reply)) {
                (Some(a), Some(b)) => {
                    if a <= b {
                        let n = reply.len();
                        assert(b < n);
                        let sub = copy_range(&reply, a, b + 1);
                        match parse_json(&sub) {
                            Some(v) => match reply_of(v) {
                                Some(m) => Ok(m),
                                None => Err(AgentError::ParseError(reply)),
                            },
                            None => Err(AgentError::ParseError(reply)),
                        }
                    } else {
                        Err(AgentError::ParseError(reply))
                    }
                },
                _ => Err(AgentError::ParseError(reply)),
            }
        },
    }
}

proof fn lemma_first_brace_skip(s: Seq<u8>, i: int, j: int)
    requires
        0 <= i <= j < s.len(),
        s[j] == 0x7b,
        forall|k: int| i <= k < j ==> s[k] != 0x7b,
    ensures
        spec_first_brace(s, i) == Some(j),
    decreases j - i,
{
    if i < j {
        lemma_first_brace_skip(s, i + 1, j);
    }
}

proof fn lemma_last_brace_skip(s: Seq<u8>, i: int, j: int)
    requires
        0 < j <= i <= s.len(),
        s[j - 1] == 0x7d,
        forall|k: int| j <= k < i ==> s[k] != 0x7d,
    ensures
        spec_last_brace(s, i) == Some(j - 1),
    decreases i - j,
{
    if j < i {
        lemma_last_brace_skip(s, i - 1, j);
    }
}

/// A text whose first non-whitespace byte cannot begin a JSON value is not
/// itself JSON, whatever follows. This discharges the strict-reading
/// premise of [`lemma_noisy_reply_extraction`] for ordinary commentary.
pub proof fn lemma_strict_rejects_nonvalue_start(s: Seq<u8>)
    requires
        spec_skip_ws(s, 0) < s.len(),
        ({
            let b = s[spec_skip_ws(s, 0)];
            b != 0x22 && b != 0x7b && b != 0x5b && b != 0x6e && b != 0x74 && b != 0x66 && b != 0x2d
                && !(0x30 <= b <= 0x39)
        }),
    ensures
        spec_parse_json(s) is None,
{
    lemma_skip_ws_bounds(s, 0);
}

/// A reply made of one well-formed JSON object wrapped in brace-free noise
/// decodes to exactly that object: the noise falls away and the object's
/// own reading is what comes out.
pub proof fn lemma_noisy_reply_extraction(
    noise1: Seq<u8>,
    obj: Seq<u8>,
    noise2: Seq<u8>,
    v: SpecJson,
)
    requires
        forall|k: int| 0 <= k < noise1.len() ==> noise1[k] != 0x7b && noise1[k] != 0x7d,
        forall|k: int| 0 <= k < noise2.len() ==> noise2[k] != 0x7b && noise2[k] != 0x7d,
        obj.len() > 0,
        obj[0] == 0x7b,
        obj[obj.len() - 1] == 0x7d,
        spec_parse_json(obj) == Some(v),
        spec_parse_json(noise1 + obj + noise2) is None,
    ensures
        spec_parse_lenient(noise1 + obj + noise2) == Some(v),
        spec_decode_reply(noise1 + obj + noise2) == spec_reply_of(v),
{
    let s = noise1 + obj + noise2;
    let n1 = noise1.len() as int;
    let ln = obj.len() as int;
    assert forall|k: int| 0 <= k < n1 implies s[k] != 0x7b by {
        assert(s[k] == noise1[k]);
    }
    assert(s[n1] == obj[0]);
    lemma_first_brace_skip(s, 0, n1);
    assert forall|k: int| n1 + ln <= k < s.len() implies s[k] != 0x7d by {
        assert(s[k] == noise2[k - n1 - ln]);
    }
    assert(s[n1 + ln - 1] == obj[ln - 1]);
    lemma_last_brace_skip(s, s.len() as int, n1 + ln);
    assert(s.subrange(n1, n1 + ln) =~= obj);
}

} // verus!
