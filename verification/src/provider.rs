//! The user's own OpenAI-compatible endpoint.

use vstd::prelude::*;
use vstd::string::*;

use crate::error::Error;
use crate::text::{chars_of, text_between};

verus! {

#[derive(Debug)]
pub struct ProviderConfig {
    /// Endpoint root, e.g. `https://api.openai.com/v1`.
    pub base_url: String,
    pub api_key: String,
}

impl Clone for ProviderConfig {
    fn clone(&self) -> (r: Self)
        ensures
            r == *self,
    {
        ProviderConfig { base_url: self.base_url.clone(), api_key: self.api_key.clone() }
    }
}

impl Default for ProviderConfig {
    fn default() -> (r: Self)
        ensures
            r.base_url@ == "https://api.openai.com/v1"@,
            r.api_key@ == Seq::<char>::empty(),
    {
        ProviderConfig {
            base_url: "https://api.openai.com/v1".to_string(),
            api_key: String::new(),
        }
    }
}

/// Text without the slashes at its end.
pub open spec fn without_slashes(s: Seq<char>) -> Seq<char>
    decreases s.len(),
{
    if s.len() > 0 && s.last() == '/' {
        without_slashes(s.drop_last())
    } else {
        s
    }
}

/// Text without the slashes at its end.
pub fn trim_slashes(s: &str) -> (r: String)
    ensures
        r@ == without_slashes(s@),
{
    let chars = chars_of(s);
    let mut n: usize = chars.len();
    assert(chars@.take(n as int) =~= chars@);
    while n > 0 && chars[n - 1] == '/'
        invariant
            n <= chars@.len(),
            without_slashes(chars@) == without_slashes(chars@.take(n as int)),
        decreases n,
    {
        assert(chars@.take(n as int).drop_last() =~= chars@.take(n - 1));
        n -= 1;
    }
    let r = text_between(chars.as_slice(), 0, n);
    assert(r@ =~= chars@.take(n as int));
    r
}

impl ProviderConfig {
    /// Where chat requests go, whether or not the root ends in a slash.
    pub fn endpoint(&self) -> (r: String)
        ensures
            r@ == without_slashes(self.base_url@) + "/chat/completions"@,
    {
        let mut r = trim_slashes(self.base_url.as_str());
        r.push_str("/chat/completions");
        r
    }
}

/// How much of an error body is kept.
pub const DETAIL_CHARS: usize = 500;

/// The front of a text.
pub open spec fn clipped(s: Seq<char>, n: int) -> Seq<char> {
    if s.len() > n {
        s.take(n)
    } else {
        s
    }
}

/// The status of a response says success.
pub open spec fn is_success(status: u16) -> bool {
    200 <= status < 300
}

/// Refuse a response that is no success, before any of it reaches the client: an upstream refusal
/// must not arrive as a well-formed but empty answer. `status` is the status code and `phrase` the
/// code in words.
pub fn check_status(status: u16, phrase: &str, body: &str) -> (r: Result<(), Error>)
    ensures
        match r {
            Ok(_) => is_success(status),
            Err(e) => !is_success(status) && e is Provider && e->Provider_0@
                == "upstream returned "@ + phrase@ + ": "@ + clipped(body@, DETAIL_CHARS as int),
        },
{
    if 200 <= status && status < 300 {
        return Ok(());
    }
    let chars = chars_of(body);
    let n: usize = if chars.len() > DETAIL_CHARS {
        DETAIL_CHARS
    } else {
        chars.len()
    };
    let detail = text_between(chars.as_slice(), 0, n);
    assert(detail@ =~= clipped(body@, DETAIL_CHARS as int));
    let mut why = "upstream returned ".to_string();
    why.push_str(phrase);
    why.push_str(": ");
    why.push_str(detail.as_str());
    Err(Error::Provider(why))
}

// ── Laws ─────────────────────────────────────────────────────────────────────

/// A slash at the end of the root makes no difference to where requests go.
pub proof fn law_trailing_slash_makes_no_difference(base_url: Seq<char>)
    ensures
        without_slashes(base_url.push('/')) == without_slashes(base_url),
{
    assert(base_url.push('/').drop_last() =~= base_url);
}

/// Requests go to the chat endpoint right below the root, as it was given but for slashes at its
/// end.
pub proof fn law_requests_go_below_the_root(
    config: &ProviderConfig,
    root: Seq<char>,
    slashes: Seq<char>,
    r: String,
)
    requires
        call_ensures(ProviderConfig::endpoint, (config,), r),
        config.base_url@ == root + slashes,
        root.len() > 0 ==> root.last() != '/',
        forall|i: int| 0 <= i < slashes.len() ==> slashes[i] == '/',
    ensures
        r@ == root + "/chat/completions"@,
{
    lemma_without_slashes(root, slashes);
}

proof fn lemma_without_slashes(root: Seq<char>, slashes: Seq<char>)
    requires
        root.len() > 0 ==> root.last() != '/',
        forall|i: int| 0 <= i < slashes.len() ==> slashes[i] == '/',
    ensures
        without_slashes(root + slashes) == root,
    decreases slashes.len(),
{
    let s = root + slashes;
    if slashes.len() > 0 {
        assert(s.last() == slashes.last());
        assert(s.drop_last() =~= root + slashes.drop_last());
        lemma_without_slashes(root, slashes.drop_last());
    } else {
        assert(s =~= root);
    }
}

/// An answer is let through exactly where its status is of the two hundreds; every other one is
/// refused in words that name the status and begin like the body.
pub proof fn law_only_success_is_let_through(
    status: u16,
    phrase: &str,
    body: &str,
    r: Result<(), Error>,
)
    requires
        call_ensures(check_status, (status, phrase, body), r),
    ensures
        r is Ok <==> status / 100 == 2,
        r is Err ==> r->Err_0 is Provider && {
            let why = r->Err_0->Provider_0@;
            let front = "upstream returned "@ + phrase@ + ": "@;
            let kept = why.len() - front.len();
            &&& front.is_prefix_of(why)
            &&& why.skip(front.len() as int) == body@.take(kept)
            &&& kept == body@.len() || kept == 500 && body@.len() > 500
        },
{
    if r is Err {
        let why = r->Err_0->Provider_0@;
        let front = "upstream returned "@ + phrase@ + ": "@;
        let kept = why.len() - front.len();
        assert(front =~= why.take(front.len() as int));
        assert(why.skip(front.len() as int) =~= body@.take(kept));
    }
}

/// Slashes at the end are dropped, and nothing else.
pub proof fn law_only_slashes_are_dropped(
    core: Seq<char>,
    slashes: Seq<char>,
    s: &str,
    r: String,
)
    requires
        call_ensures(trim_slashes, (s,), r),
        s@ == core + slashes,
        core.len() > 0 ==> core.last() != '/',
        forall|i: int| 0 <= i < slashes.len() ==> slashes[i] == '/',
    ensures
        r@ == core,
{
    lemma_without_slashes(core, slashes);
}

} // verus!
