//! The reference provider against a structured store. The decision logic is
//! here and verified: how a tracking identifier decomposes into a numeric
//! suffix, when a lookup answers without querying the backend, and what each
//! backend reply means. The transport itself (HTTP, credentials) lives with
//! the caller, which performs the planned query and hands the reply back.

use vstd::prelude::*;
use vstd::string::*;

use crate::parser::{is_digit_char, valid_id_split};
use crate::text::{find_str, find_sub, lemma_find_sub, match_at};
use crate::NotionConfig;

verus! {

/// A provider failure, kept distinct from a `false` (confirmed absent)
/// answer.
#[derive(Debug, Clone, PartialEq, Eq)]
pub enum NotionError {
    /// Transport-level failure, with the transport's message.
    Http(String),
    /// Credential missing, malformed, or rejected by the backend; the backend
    /// also reports other non-success statuses under this kind for now.
    Auth,
    /// Reserved for unambiguous absence distinct from "could not determine".
    NotFound,
}

/// What a lookup does for one identifier.
#[derive(Debug, Clone, PartialEq, Eq)]
pub enum LookupPlan {
    /// Answer immediately, with no backend call.
    Respond(bool),
    /// Query the backend, filtering by this numeric suffix.
    Query(i32),
}

/// The numeric value of a digit string, most significant first.
pub open spec fn digits_val(s: Seq<char>) -> int
    decreases s.len(),
{
    if s.len() == 0 {
        0
    } else {
        digits_val(s.drop_last()) * 10 + (s.last() as u32 - 48)
    }
}

/// Every character is an ASCII digit.
pub open spec fn all_digits(s: Seq<char>) -> bool {
    forall|i: int| 0 <= i < s.len() ==> is_digit_char(s[i])
}

/// What parsing `s` as a 32-bit integer yields: an optional sign, one or
/// more digits, and a value within range; anything else is `None`.
pub open spec fn spec_parse_i32(s: Seq<char>) -> Option<i32> {
    let signed = s.len() >= 1 && (s[0] == '+' || s[0] == '-');
    let body = if signed {
        s.drop_first()
    } else {
        s
    };
    let neg = s.len() >= 1 && s[0] == '-';
    if body.len() >= 1 && all_digits(body) {
        let v = if neg {
            -digits_val(body)
        } else {
            digits_val(body)
        };
        if -0x8000_0000 <= v <= 0x7fff_ffff {
            Some(v as i32)
        } else {
            None
        }
    } else {
        None
    }
}

/// The numeric suffix of a tracking identifier: the text after the first
/// hyphen parsed as an integer, `None` when there is no hyphen or no parse.
pub open spec fn spec_lookup_number(id: Seq<char>) -> Option<i32> {
    let d = find_sub(id, seq!['-']);
    if d < 0 {
        None
    } else {
        spec_parse_i32(id.subrange(d + 1, id.len() as int))
    }
}

/// What [`NotionProvider::plan_lookup`] decides: an identifier without a
/// usable numeric suffix is answered `false` with no backend call; any other
/// is queried by its suffix.
pub open spec fn spec_plan_lookup(id: Seq<char>) -> LookupPlan {
    match spec_lookup_number(id) {
        None => LookupPlan::Respond(false),
        Some(n) => LookupPlan::Query(n),
    }
}

/// What a backend reply means: a success is answered by whether the result
/// list held a record, the backend's "no such record" status means absence,
/// and every other status is the `Auth` error (the current catch-all).
pub open spec fn spec_interpret_response(status: u16, results_nonempty: bool) -> Result<
    bool,
    NotionError,
> {
    if status == 200 {
        Ok(results_nonempty)
    } else if status == 404 {
        Ok(false)
    } else {
        Err(NotionError::Auth)
    }
}

proof fn lemma_digits_val_nonneg(s: Seq<char>)
    requires
        all_digits(s),
    ensures
        digits_val(s) >= 0,
    decreases s.len(),
{
    if s.len() > 0 {
        assert(all_digits(s.drop_last()));
        lemma_digits_val_nonneg(s.drop_last());
    }
}

/// Parse a 32-bit integer from text, exactly as [`spec_parse_i32`] says.
fn parse_i32_str(s: &str) -> (r: Option<i32>)
    ensures
        r == spec_parse_i32(s@),
{
    let len = s.unicode_len();
    if len == 0 {
        return None;
    }
    let c0 = s.get_char(0);
    let neg = c0 == '-';
    let signed = c0 == '+' || c0 == '-';
    let start: usize = if signed {
        1
    } else {
        0
    };
    let ghost body = if signed {
        s@.drop_first()
    } else {
        s@
    };
    proof {
        assert(s@.drop_first() =~= s@.subrange(1, len as int));
        assert(body =~= s@.subrange(start as int, len as int));
    }
    if start >= len {
        return None;
    }
    let mut i: usize = start;
    while i < len
        invariant
            start <= i <= len,
            start < len,
            len == s@.len(),
            signed == (s@[0] == '+' || s@[0] == '-'),
            signed ==> start == 1,
            !signed ==> start == 0,
            forall|j: int| start <= j < i ==> is_digit_char(s@[j]),
        decreases len - i,
    {
        let c = s.get_char(i);
        let u = c as u32;
        if u < 48 || u > 57 {
            proof {
                let bodyv = if signed {
                    s@.drop_first()
                } else {
                    s@
                };
                assert(s@.drop_first() =~= s@.subrange(1, len as int));
                assert(bodyv =~= s@.subrange(start as int, len as int));
                assert(bodyv[i - start] == s@[i as int]);
                assert(!all_digits(bodyv));
            }
            return None;
        }
        i += 1;
    }
    proof {
        assert forall|j: int| 0 <= j < body.len() implies is_digit_char(body[j]) by {
            assert(body[j] == s@[j + start]);
        }
    }
    let mut acc: u64 = 0;
    let mut big = false;
    let mut k: usize = start;
    while k < len
        invariant
            start <= k <= len,
            start < len,
            len == s@.len(),
            forall|j: int| start <= j < len ==> is_digit_char(s@[j]),
            !big ==> acc == digits_val(s@.subrange(start as int, k as int)) && acc
                <= 0x8000_0000,
            big ==> digits_val(s@.subrange(start as int, k as int)) > 0x8000_0000,
        decreases len - k,
    {
        let c = s.get_char(k);
        let d = (c as u32 - 48) as u64;
        let ghost pre = s@.subrange(start as int, k as int);
        let ghost post = s@.subrange(start as int, k + 1 as int);
        proof {
            assert(post.drop_last() =~= pre);
            assert(post.last() == s@[k as int]);
            assert(digits_val(post) == digits_val(pre) * 10 + (s@[k as int] as u32 - 48));
            assert forall|j: int| 0 <= j < pre.len() implies is_digit_char(pre[j]) by {
                assert(pre[j] == s@[j + start]);
            }
            lemma_digits_val_nonneg(pre);
        }
        if big {
            proof {
                assert(digits_val(pre) * 10 > 0x8000_0000 * 10) by (nonlinear_arith)
                    requires
                        digits_val(pre) > 0x8000_0000,
                ;
            }
        } else {
            let next = acc * 10 + d;
            if next > 0x8000_0000 {
                big = true;
            } else {
                acc = next;
            }
        }
        k += 1;
    }
    proof {
        assert(s@.subrange(start as int, len as int) =~= body);
        lemma_digits_val_nonneg(body);
    }
    if big {
        return None;
    }
    if neg {
        if acc == 0x8000_0000 {
            return Some(-0x8000_0000);
        }
        let v = acc as i32;
        return Some(-v);
    }
    if acc == 0x8000_0000 {
        return None;
    }
    Some(acc as i32)
}

impl NotionError {
    /// The error as readable text, one line per kind.
    pub fn message(&self) -> (r: String)
        ensures
            match self {
                NotionError::Http(msg) => r@ == "HTTP error: "@ + msg@,
                NotionError::Auth => r@ == "Authentication failed"@,
                NotionError::NotFound => r@ == "Page not found"@,
            },
    {
        match self {
            NotionError::Http(msg) => String::from_str("HTTP error: ").concat(msg.as_str()),
            NotionError::Auth => String::from_str("Authentication failed"),
            NotionError::NotFound => String::from_str("Page not found"),
        }
    }
}

/// The reference provider: holds the identity of the backing collection.
/// The transport client is the caller's; this type decides what a lookup
/// does and what each reply means.
#[derive(Debug, Clone)]
pub struct NotionProvider {
    /// The collection queried by identifier.
    pub database_id: String,
}

impl NotionProvider {
    /// A provider over the configured collection. The caller supplies its
    /// credential to the transport it builds; a missing or malformed one must
    /// surface there as [`NotionError::Auth`].
    pub fn new(config: &NotionConfig) -> (r: NotionProvider)
        ensures
            r.database_id@ == config.database_id@,
    {
        NotionProvider { database_id: config.database_id.clone() }
    }

    /// Decide what a lookup of `id` does, as [`spec_plan_lookup`] says: no
    /// hyphen or no parseable numeric suffix answers `false` immediately;
    /// otherwise the backend is queried by the suffix.
    pub fn plan_lookup(&self, id: &str) -> (r: LookupPlan)
        ensures
            r == spec_plan_lookup(id@),
    {
        proof {
            reveal_strlit("-");
            assert("-"@ =~= seq!['-']);
        }
        let len = id.unicode_len();
        match find_str(id, "-") {
            None => LookupPlan::Respond(false),
            Some(d) => {
                proof {
                    lemma_find_sub(id@, seq!['-']);
                    assert(match_at(id@, seq!['-'], d as int));
                }
                match parse_i32_str(id.substring_char(d + 1, len)) {
                    Some(n) => LookupPlan::Query(n),
                    None => LookupPlan::Respond(false),
                }
            },
        }
    }

    /// Interpret one backend reply, as [`spec_interpret_response`] says:
    /// success answers by the result list, the backend's "no such record"
    /// status answers `false`, and everything else is the `Auth` error.
    pub fn interpret_response(status: u16, results_nonempty: bool) -> (r: Result<
        bool,
        NotionError,
    >)
        ensures
            r == spec_interpret_response(status, results_nonempty),
    {
        if status == 200 {
            Ok(results_nonempty)
        } else if status == 404 {
            Ok(false)
        } else {
            Err(NotionError::Auth)
        }
    }
}

/// A well-formed identifier whose numeric suffix is beyond the queryable
/// range is answered `false` outright: the lookup plans no backend query.
pub proof fn lemma_huge_suffix_skips_query(id: Seq<char>, k: int)
    requires
        valid_id_split(id, k),
        digits_val(id.subrange(k + 1, id.len() as int)) > 0x7fff_ffff,
    ensures
        spec_plan_lookup(id) == LookupPlan::Respond(false),
{
    lemma_find_sub(id, seq!['-']);
    assert(id.subrange(k, k + 1) =~= seq!['-']);
    assert(match_at(id, seq!['-'], k));
    let f = find_sub(id, seq!['-']);
    if f < 0 {
        assert(!match_at(id, seq!['-'], k));
    }
    assert(0 <= f <= k);
    if f < k {
        assert(match_at(id, seq!['-'], f));
        assert(id.subrange(f, f + 1)[0] == id[f]);
        assert(id[f] == '-');
        assert(crate::parser::is_upper_char(id[f]));
        assert(false);
    }
    let body = id.subrange(k + 1, id.len() as int);
    assert(body.len() >= 1);
    assert forall|j: int| 0 <= j < body.len() implies is_digit_char(body[j]) by {
        assert(body[j] == id[j + k + 1]);
    }
    assert(is_digit_char(body[0]));
    assert(body[0] != '+' && body[0] != '-');
    lemma_digits_val_nonneg(body);
    assert(spec_parse_i32(body) is None);
}

/// A backend authentication rejection surfaces as the `Auth` error kind,
/// never as a `false` answer.
pub proof fn lemma_auth_rejection_is_error(results_nonempty: bool)
    ensures
        spec_interpret_response(401, results_nonempty) == Err::<bool, NotionError>(
            NotionError::Auth,
        ),
{
}

} // verus!
