//! Protocol rules of the broker's REST API: which calls may be retried, how
//! replies are classified, how the OAuth token is cached and how calls are
//! spaced per transaction code.

use vstd::prelude::*;
use crate::telegram::spec_digits;
use crate::text::{
    chars_of, is_ws, lemma_next_non_ws_bounds, lemma_next_ws_bounds, next_non_ws, next_ws, spec_is_ws,
    spec_trim, str_eq, string_from_chars, trim_chars,
};

verus! {

broadcast use vstd::string::group_string_axioms;

/// Order transactions (`CSPAT…`): a failed send may still have reached the
/// server, so they are never retried.
pub open spec fn spec_is_order_tr(tr_code: Seq<char>) -> bool {
    tr_code.len() >= 5 && tr_code.take(5) == "CSPAT"@
}

/// Whether `s` starts with the characters of `prefix`.
fn starts_with(s: &str, prefix: &str) -> (r: bool)
    ensures
        r == (s@.len() >= prefix@.len() && s@.take(prefix@.len() as int) == prefix@),
{
    let a = chars_of(s);
    let p = chars_of(prefix);
    if a.len() < p.len() {
        return false;
    }
    let mut i: usize = 0;
    while i < p.len()
        invariant
            a@ == s@,
            p@ == prefix@,
            a@.len() >= p@.len(),
            0 <= i <= p@.len(),
            forall|j: int| 0 <= j < i ==> a@[j] == p@[j],
        decreases p@.len() - i,
    {
        if a[i] != p[i] {
            assert(s@.take(prefix@.len() as int)[i as int] != prefix@[i as int]);
            return false;
        }
        i = i + 1;
    }
    assert(s@.take(prefix@.len() as int) =~= prefix@);
    true
}

/// Order-placing transaction codes start with `CSPAT`.
pub fn is_order_tr(tr_code: &str) -> (r: bool)
    ensures
        r == spec_is_order_tr(tr_code@),
{
    proof {
        reveal_strlit("CSPAT");
    }
    starts_with(tr_code, "CSPAT")
}

/// Send attempts for a transaction: one for orders, three for queries.
pub fn transport_attempts(tr_code: &str) -> (n: usize)
    ensures
        n == if spec_is_order_tr(tr_code@) { 1usize } else { 3usize },
{
    if is_order_tr(tr_code) {
        1
    } else {
        1 + 2
    }
}

/// The reply code of a throttled call.
pub open spec fn rate_limit_code() -> Seq<char> {
    "IGW00201"@
}

/// Whether a reply's `rsp_cd` reports throttling.
pub fn is_rate_limited(rsp_cd: Option<&str>) -> (r: bool)
    ensures
        r == match rsp_cd {
            Some(c) => c@ == rate_limit_code(),
            None => false,
        },
{
    match rsp_cd {
        Some(c) => str_eq(c, "IGW00201"),
        None => false,
    }
}

/// Whether a cancel reply reports success (`rsp_cd` `0000`).
pub fn cancel_succeeded(rsp_cd: Option<&str>) -> (r: bool)
    ensures
        r == match rsp_cd {
            Some(c) => c@ == "0000"@,
            None => false,
        },
{
    match rsp_cd {
        Some(c) => str_eq(c, "0000"),
        None => false,
    }
}

/// What `str::to_lowercase` makes of `s` (full Unicode lower-casing).
pub uninterp spec fn lowercase_of(s: Seq<char>) -> Seq<char>;

/// Lower-cases a string.
///
/// Trusted: calls `str::to_lowercase`; the contract only names the result.
#[verifier::external_body]
pub(crate) fn lowercase(s: &str) -> (r: String)
    ensures
        r@ == lowercase_of(s@),
{
    s.to_lowercase()
}

/// Whether `needle` occurs in `hay` at position `i`.
pub open spec fn occurs_at(hay: Seq<char>, needle: Seq<char>, i: int) -> bool {
    0 <= i && i + needle.len() <= hay.len() && hay.subrange(i, i + needle.len()) == needle
}

/// Whether `needle` occurs in `hay`.
pub open spec fn contains_sub(hay: Seq<char>, needle: Seq<char>) -> bool {
    exists|i: int| #[trigger] occurs_at(hay, needle, i)
}

/// Whether `needle` occurs in `hay`.
pub(crate) fn contains(hay: &Vec<char>, needle: &Vec<char>) -> (r: bool)
    ensures
        r == contains_sub(hay@, needle@),
{
    let n = hay.len();
    let m = needle.len();
    if m > n {
        assert forall|i: int| !occurs_at(hay@, needle@, i) by {}
        return false;
    }
    let mut i: usize = 0;
    while i <= n - m
        invariant
            n == hay@.len(),
            m == needle@.len(),
            m <= n,
            0 <= i <= n - m + 1,
            forall|k: int| 0 <= k < i ==> !#[trigger] occurs_at(hay@, needle@, k),
        decreases n - i + 1,
    {
        let mut j: usize = 0;
        while j < m && hay[i + j] == needle[j]
            invariant
                n == hay@.len(),
                m == needle@.len(),
                i + m <= n,
                0 <= j <= m,
                forall|t: int| 0 <= t < j ==> hay@[i + t] == needle@[t],
            decreases m - j,
        {
            j = j + 1;
        }
        if j == m {
            assert(hay@.subrange(i as int, i + m) =~= needle@);
            assert(occurs_at(hay@, needle@, i as int));
            return true;
        }
        assert(hay@.subrange(i as int, i + m)[j as int] != needle@[j as int]);
        i = i + 1;
    }
    assert forall|k: int| !#[trigger] occurs_at(hay@, needle@, k) by {
        if 0 <= k < i {
        } else if k >= i {
            assert(k + m > hay@.len());
        }
    }
    false
}

/// Reply codes that mean the token is invalid or expired.
pub open spec fn token_error_codes() -> Seq<Seq<char>> {
    seq!["IGW00123"@, "IGW00124"@, "IGW00125"@]
}

/// Reply-message phrases that mean the token is invalid or expired.
pub open spec fn token_error_keywords() -> Seq<Seq<char>> {
    seq!["유효하지 않은 token"@, "token이 없습니다"@, "token 만료"@, "invalid token"@, "unauthorized"@]
}

/// Whether a reply reports a token problem: a token reply code, or a message
/// that contains one of the phrases (both lower-cased).
pub open spec fn spec_is_token_error(code: Seq<char>, msg: Seq<char>) -> bool {
    token_error_codes().contains(code) || exists|k: int|
        0 <= k < token_error_keywords().len() && #[trigger] contains_sub(
            lowercase_of(msg),
            lowercase_of(token_error_keywords()[k]),
        )
}

/// A reply whose code is one of the token error codes `IGW00123`,
/// `IGW00124` or `IGW00125` asks for a fresh token, whatever its message.
pub proof fn law_token_codes_ask_for_fresh_token(msg: Seq<char>)
    ensures
        spec_is_token_error("IGW00123"@, msg),
        spec_is_token_error("IGW00124"@, msg),
        spec_is_token_error("IGW00125"@, msg),
{
    assert(token_error_codes()[0] == "IGW00123"@);
    assert(token_error_codes()[1] == "IGW00124"@);
    assert(token_error_codes()[2] == "IGW00125"@);
}

/// Whether a reply (its `rsp_cd` and `rsp_msg`, empty when absent) asks for a
/// fresh token.
pub fn is_token_error(code: &str, msg: &str) -> (r: bool)
    ensures
        r == spec_is_token_error(code@, msg@),
{
    let codes = vec!["IGW00123", "IGW00124", "IGW00125"];
    let mut i: usize = 0;
    let ghost tc = token_error_codes();
    assert(codes@.len() == 3);
    while i < 3
        invariant
            tc == token_error_codes(),
            codes@.len() == 3,
            forall|j: int| 0 <= j < 3 ==> #[trigger] codes@[j]@ == tc[j],
            0 <= i <= 3,
            forall|j: int| 0 <= j < i ==> tc[j] != code@,
        decreases 3 - i,
    {
        if str_eq(code, codes[i]) {
            assert(tc[i as int] == code@);
            return true;
        }
        i = i + 1;
    }
    assert(!tc.contains(code@)) by {
        if tc.contains(code@) {
            let j = choose|j: int| 0 <= j < tc.len() && tc[j] == code@;
            assert(0 <= j < 3);
        }
    }
    let keywords = vec!["유효하지 않은 token", "token이 없습니다", "token 만료", "invalid token", "unauthorized"];
    let ghost kws = token_error_keywords();
    let low = lowercase(msg);
    let hay = chars_of(low.as_str());
    let mut k: usize = 0;
    while k < 5
        invariant
            kws == token_error_keywords(),
            keywords@.len() == 5,
            forall|j: int| 0 <= j < 5 ==> #[trigger] keywords@[j]@ == kws[j],
            hay@ == lowercase_of(msg@),
            0 <= k <= 5,
            forall|j: int| 0 <= j < k ==> !#[trigger] contains_sub(lowercase_of(msg@), lowercase_of(kws[j])),
        decreases 5 - k,
    {
        let kw = lowercase(keywords[k]);
        let needle = chars_of(kw.as_str());
        if contains(&hay, &needle) {
            assert(contains_sub(lowercase_of(msg@), lowercase_of(kws[k as int])));
            return true;
        }
        k = k + 1;
    }
    false
}

/// Seconds a fresh token is trusted: its lifetime less two minutes, never
/// negative.
pub fn token_ttl_secs(expires_in: i64) -> (r: i64)
    requires
        expires_in >= i64::MIN + 120,
    ensures
        r == if expires_in - 120 > 0 { expires_in - 120 } else { 0 },
{
    let t = expires_in - 120;
    if t > 0 {
        t
    } else {
        0
    }
}

/// The issue number of a stock code: the code itself when it starts with
/// `A`, otherwise `A` followed by the code.
pub open spec fn spec_isu_no(code: Seq<char>) -> Seq<char> {
    if code.len() > 0 && code[0] == 'A' {
        code
    } else {
        seq!['A'] + code
    }
}

/// Issue number sent with orders and fill queries.
pub fn isu_no(code: &str) -> (r: String)
    ensures
        r@ == spec_isu_no(code@),
{
    let cs = chars_of(code);
    if cs.len() > 0 && cs[0] == 'A' {
        String::from_str(code)
    } else {
        let mut s = String::from_str("A");
        proof {
            reveal_strlit("A");
        }
        s.append(code);
        s
    }
}

/// Buy/sell code of an order: `"2"` for a buy, `"1"` otherwise.
pub fn bns_tp(side: &str) -> (r: &'static str)
    ensures
        r@ == if side@ == "buy"@ { "2"@ } else { "1"@ },
{
    if str_eq(side, "buy") {
        "2"
    } else {
        "1"
    }
}

/// Advice appended to a token failure, by gateway error code.
pub open spec fn spec_auth_hint(code: Seq<char>) -> Seq<char> {
    if code == "IGW00103"@ {
        " 앱키가 LS증권 서버에 등록돼 있지 않습니다(유효기간 만료 또는 폐기). LS증권 OpenAPI 에서 앱키를 재발급한 뒤 backend/.env 의 EBEST_APP_KEY/EBEST_APP_SECRET 를 갱신하고 백엔드를 재시작하세요."@
    } else if code == "IGW00121"@ || code == "IGW00133"@ {
        " AppSecretKey 가 앱키와 짝이 맞지 않습니다. 재발급 시 받은 쌍을 그대로 넣었는지 확인하세요."@
    } else {
        Seq::empty()
    }
}

/// Advice for a token failure code (empty for other codes).
pub fn auth_hint(code: &str) -> (r: &'static str)
    ensures
        r@ == spec_auth_hint(code@),
{
    if str_eq(code, "IGW00103") {
        " 앱키가 LS증권 서버에 등록돼 있지 않습니다(유효기간 만료 또는 폐기). LS증권 OpenAPI 에서 앱키를 재발급한 뒤 backend/.env 의 EBEST_APP_KEY/EBEST_APP_SECRET 를 갱신하고 백엔드를 재시작하세요."
    } else if str_eq(code, "IGW00121") || str_eq(code, "IGW00133") {
        " AppSecretKey 가 앱키와 짝이 맞지 않습니다. 재발급 시 받은 쌍을 그대로 넣었는지 확인하세요."
    } else {
        proof {
            reveal_strlit("");
        }
        ""
    }
}

/// The white-space separated words of `s` from position `from` on.
pub open spec fn words_from(s: Seq<char>, from: int) -> Seq<Seq<char>>
    decreases s.len() - from,
{
    let a = next_non_ws(s, from);
    if from < 0 || a >= s.len() || a < from {
        Seq::empty()
    } else {
        let b = next_ws(s, a);
        if b <= a || b > s.len() {
            Seq::empty()
        } else {
            seq![s.subrange(a, b)] + words_from(s, b)
        }
    }
}

/// Words joined by single spaces.
pub open spec fn join_spaced(words: Seq<Seq<char>>) -> Seq<char>
    decreases words.len(),
{
    if words.len() == 0 {
        Seq::empty()
    } else if words.len() == 1 {
        words[0]
    } else {
        join_spaced(words.drop_last()) + seq![' '] + words.last()
    }
}

/// `s` with every run of white space collapsed to one space and none at the
/// ends (`split_whitespace` joined by `" "`).
pub open spec fn spec_squash_ws(s: Seq<char>) -> Seq<char> {
    join_spaced(words_from(s, 0))
}

/// Collapse white space runs to single spaces and trim the ends.
pub fn squash_ws(s: &str) -> (r: String)
    ensures
        r@ == spec_squash_ws(s@),
{
    let cs = chars_of(s);
    let n = cs.len();
    let mut out: Vec<char> = Vec::new();
    let mut p: usize = 0;
    let ghost mut done: Seq<Seq<char>> = Seq::empty();
    assert(words_from(cs@, 0) == done + words_from(cs@, 0));
    while p < n
        invariant
            n == cs@.len(),
            0 <= p <= n,
            done + words_from(cs@, p as int) == words_from(cs@, 0),
            out@ == join_spaced(done),
            (done.len() == 0) == (out@.len() == 0),
        decreases n - p,
    {
        proof {
            lemma_next_non_ws_bounds(cs@, p as int);
        }
        let mut a: usize = p;
        while a < n && is_ws(cs[a])
            invariant
                n == cs@.len(),
                p <= a <= n,
                next_non_ws(cs@, p as int) == next_non_ws(cs@, a as int),
            decreases n - a,
        {
            a = a + 1;
        }
        if a >= n {
            assert(words_from(cs@, p as int) =~= Seq::<Seq<char>>::empty());
            assert(done + words_from(cs@, p as int) =~= done);
            assert(done + words_from(cs@, n as int) =~= done);
            p = n;
        } else {
            proof {
                lemma_next_ws_bounds(cs@, a as int);
            }
            let mut b: usize = a;
            let mut word: Vec<char> = Vec::new();
            while b < n && !is_ws(cs[b])
                invariant
                    n == cs@.len(),
                    a <= b <= n,
                    next_ws(cs@, a as int) == next_ws(cs@, b as int),
                    word@ == cs@.subrange(a as int, b as int),
                decreases n - b,
            {
                word.push(cs[b]);
                b = b + 1;
                assert(word@ =~= cs@.subrange(a as int, b as int));
            }
            assert(next_non_ws(cs@, a as int) == a);
            assert(words_from(cs@, p as int) == seq![word@] + words_from(cs@, b as int));
            let ghost old_out = out@;
            if out.len() > 0 {
                out.push(' ');
            }
            let mut k: usize = 0;
            let ghost mid = out@;
            while k < word.len()
                invariant
                    0 <= k <= word@.len(),
                    out@ == mid + word@.take(k as int),
                decreases word@.len() - k,
            {
                out.push(word[k]);
                k = k + 1;
                assert(out@ =~= mid + word@.take(k as int));
            }
            assert(word@.take(word@.len() as int) =~= word@);
            proof {
                let nd = done.push(word@);
                assert(nd.drop_last() =~= done);
                if done.len() == 0 {
                    assert(old_out.len() == 0);
                    assert(out@ =~= word@);
                } else {
                    assert(out@ =~= join_spaced(done) + seq![' '] + word@);
                }
                assert(done + (seq![word@] + words_from(cs@, b as int)) =~= nd + words_from(cs@, b as int));
                done = nd;
            }
            p = b;
        }
    }
    assert(words_from(cs@, p as int) =~= Seq::<Seq<char>>::empty());
    assert(done + words_from(cs@, p as int) =~= done);
    string_from_chars(&out)
}

/// Text of a token failure: `HTTP <status> <code> <description><hint>` with
/// white space squashed; the description is the gateway's, or else the first
/// 200 characters of the trimmed reply body.
pub open spec fn spec_auth_failure_reason(
    status: u16,
    code: Seq<char>,
    description: Option<Seq<char>>,
    body: Seq<char>,
) -> Seq<char> {
    let desc = match description {
        Some(d) => d,
        None => if spec_trim(body).len() <= 200 {
            spec_trim(body)
        } else {
            spec_trim(body).take(200)
        },
    };
    spec_squash_ws(
        "HTTP "@ + spec_digits(status as nat) + " "@ + code + " "@ + desc + spec_auth_hint(code),
    )
}

/// Human-readable reason for a failed token request.
pub fn auth_failure_reason(status: u16, code: &str, description: Option<&str>, body: &str) -> (r: String)
    ensures
        r@ == spec_auth_failure_reason(
            status,
            code@,
            match description {
                Some(d) => Some(d@),
                None => None,
            },
            body@,
        ),
{
    let desc = match description {
        Some(d) => String::from_str(d),
        None => {
            let t = trim_chars(body);
            let tc = chars_of(t.as_str());
            let mut out: Vec<char> = Vec::new();
            let mut i: usize = 0;
            while i < tc.len() && i < 200
                invariant
                    0 <= i <= tc@.len(),
                    i <= 200,
                    out@ == tc@.take(i as int),
                decreases tc@.len() - i,
            {
                out.push(tc[i]);
                i = i + 1;
                assert(out@ =~= tc@.take(i as int));
            }
            assert(tc@.len() <= 200 ==> tc@.take(tc@.len() as int) =~= tc@);
            string_from_chars(&out)
        },
    };
    let mut msg = String::from_str("HTTP ");
    let st = string_from_chars(&crate::telegram::decimal_digits(status as u64));
    msg.append(st.as_str());
    msg.append(" ");
    msg.append(code);
    msg.append(" ");
    msg.append(desc.as_str());
    msg.append(auth_hint(code));
    proof {
        reveal_strlit("HTTP ");
        reveal_strlit(" ");
    }
    squash_ws(msg.as_str())
}

/// Next-page key of a minute-candle reply: the trimmed continuation date and
/// time, or `None` on the last page (empty date).
pub fn minute_cts_key(cts_date: &str, cts_time: &str) -> (r: Option<(String, String)>)
    ensures
        spec_trim(cts_date@).len() == 0 ==> r is None,
        spec_trim(cts_date@).len() > 0 ==> (r matches Some((d, t)) && d@ == spec_trim(cts_date@) && t@
            == spec_trim(cts_time@)),
{
    let d = trim_chars(cts_date);
    let t = trim_chars(cts_time);
    if d.as_str().is_empty() {
        None
    } else {
        Some((d, t))
    }
}

/// Rate-limit slot for one call of a transaction code: the call goes at the
/// later of the reserved time and now; the next call of the code is reserved
/// `interval` after it.
pub struct Slot {
    /// How long to wait before sending (milliseconds).
    pub wait: u64,
    /// Reservation for the next call of the same code.
    pub next: u64,
}

/// Reserve the next call slot of a transaction code (times in milliseconds).
pub fn reserve_slot(reserved: Option<u64>, now: u64, interval: u64) -> (s: Slot)
    requires
        match reserved {
            Some(t) => (if t > now { t } else { now }) + interval <= u64::MAX,
            None => now + interval <= u64::MAX,
        },
    ensures
        ({
            let at = match reserved {
                Some(t) => if t > now { t } else { now },
                None => now,
            };
            s.wait == at - now && s.next == at + interval
        }),
{
    let at = match reserved {
        Some(t) => if t > now {
            t
        } else {
            now
        },
        None => now,
    };
    Slot { wait: at - now, next: at + interval }
}

/// What a token request does first.
#[derive(Clone, Copy, PartialEq, Eq, Debug, Structural)]
pub enum TokenStep {
    /// Hand out the cached token.
    UseCached,
    /// A request failed moments ago: report failure without asking again.
    CoolingDown,
    /// No app key or secret: fail with the configuration reason.
    MissingCredentials,
    /// Ask the gateway for a new token.
    Request,
}

/// Decide how a token request proceeds: a live cached token is used unless a
/// refresh is forced; within the cooldown after a failure nothing is sent;
/// without credentials the request fails.
pub fn token_step(
    force_refresh: bool,
    cached_live: bool,
    in_cooldown: bool,
    has_credentials: bool,
) -> (r: TokenStep)
    ensures
        r == if !force_refresh && cached_live {
            TokenStep::UseCached
        } else if in_cooldown {
            TokenStep::CoolingDown
        } else if !has_credentials {
            TokenStep::MissingCredentials
        } else {
            TokenStep::Request
        },
{
    if !force_refresh && cached_live {
        TokenStep::UseCached
    } else if in_cooldown {
        TokenStep::CoolingDown
    } else if !has_credentials {
        TokenStep::MissingCredentials
    } else {
        TokenStep::Request
    }
}

} // verus!
