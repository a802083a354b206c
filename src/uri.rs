use vstd::prelude::*;
use vstd::string::StrSliceExecFns;
use crate::credential::{Credential, CredentialView};
use crate::error::TotpError;

verus! {

/// The parts of a parsed URL that an `otpauth://` URI is read from.
pub struct UrlParts {
    /// The host, which names the mode (`totp`).
    pub host: Option<String>,
    /// The path, still percent-encoded.
    pub path: String,
    /// The query's key/value pairs, in order, already decoded.
    pub query: Vec<(String, String)>,
}

/// The plain values of a pair list.
pub open spec fn pairs_view(q: Seq<(String, String)>) -> Seq<(Seq<char>, Seq<char>)> {
    q.map_values(|p: (String, String)| (p.0@, p.1@))
}

/// The plain values of an optional text.
pub open spec fn opt_view(o: Option<String>) -> Option<Seq<char>> {
    match o {
        Some(s) => Some(s@),
        None => None,
    }
}

impl View for UrlParts {
    type V = (Option<Seq<char>>, Seq<char>, Seq<(Seq<char>, Seq<char>)>);

    open spec fn view(&self) -> Self::V {
        (opt_view(self.host), self.path@, pairs_view(self.query@))
    }
}

/// What URL parsing makes of a text: host, path and query pairs, or `None`
/// when the text is not a well-formed absolute URL.
pub uninterp spec fn url_parts(s: Seq<char>) -> Option<(Option<Seq<char>>, Seq<char>, Seq<(Seq<char>, Seq<char>)>)>;

/// What percent-decoding makes of a text, or `None` when the decoded bytes
/// are not UTF-8.
pub uninterp spec fn percent_decoded(s: Seq<char>) -> Option<Seq<char>>;

/// Relies on `url::Url::parse` and, on its result, `host_str`, `path` and
/// `query_pairs`: all depend on the text alone.
#[verifier::external_body]
fn parse_url(s: &str) -> (r: Option<UrlParts>)
    ensures
        match r {
            Some(p) => url_parts(s@) == Some(p@),
            None => url_parts(s@) is None,
        },
{
    url::Url::parse(s).ok().map(|u| UrlParts {
        host: u.host_str().map(|h| h.to_string()),
        path: u.path().to_string(),
        query: u.query_pairs().map(|(k, v)| (k.into_owned(), v.into_owned())).collect(),
    })
}

/// Relies on `urlencoding::decode`: the result depends on the text alone,
/// and a text without `%` is returned as it is.
#[verifier::external_body]
fn decode_percent(s: &str) -> (r: Option<String>)
    ensures
        opt_view(r) == percent_decoded(s@),
        !s@.contains('%') ==> opt_view(r) == Some(s@),
{
    urlencoding::decode(s).ok().map(|d| d.into_owned())
}

/// The value of the first pair at or after `i` whose key is `k`.
pub open spec fn lookup_from(q: Seq<(Seq<char>, Seq<char>)>, k: Seq<char>, i: int) -> Option<Seq<char>>
    decreases q.len() - i,
{
    if i < 0 || i >= q.len() {
        None
    } else if q[i].0 == k {
        Some(q[i].1)
    } else {
        lookup_from(q, k, i + 1)
    }
}

/// The value of the first query pair whose key is `k`.
pub open spec fn lookup(q: Seq<(Seq<char>, Seq<char>)>, k: Seq<char>) -> Option<Seq<char>> {
    lookup_from(q, k, 0)
}

/// An ASCII decimal digit.
pub open spec fn is_digit(c: char) -> bool {
    48 <= (c as u32) <= 57
}

/// The number that a text of decimal digits writes.
pub open spec fn decimal_value(s: Seq<char>) -> nat
    decreases s.len(),
{
    if s.len() == 0 {
        0
    } else {
        10 * decimal_value(s.drop_last()) + ((s.last() as u32) - 48) as nat
    }
}

/// A parameter is a non-empty run of decimal digits whose value is positive
/// and fits in 32 bits.
pub open spec fn param_value(s: Seq<char>) -> Option<u32> {
    if s.len() > 0 && (forall|i: int| 0 <= i < s.len() ==> is_digit(#[trigger] s[i])) && 0
        < decimal_value(s) <= u32::MAX {
        Some(decimal_value(s) as u32)
    } else {
        None
    }
}

/// An optional parameter: its default when absent, an error when malformed.
pub open spec fn optional_param(v: Option<Seq<char>>, default: u32) -> Result<u32, TotpError> {
    match v {
        None => Ok(default),
        Some(t) => match param_value(t) {
            Some(n) => Ok(n),
            None => Err(TotpError::MalformedParameter),
        },
    }
}

/// The credential name that a URL path gives: the path without its leading
/// separator, percent-decoded, and not empty.
pub open spec fn label_of(path: Seq<char>) -> Option<Seq<char>> {
    if path.len() == 0 {
        None
    } else {
        match percent_decoded(path.drop_first()) {
            Some(n) => if n.len() > 0 {
                Some(n)
            } else {
                None
            },
            None => None,
        }
    }
}

/// What an `otpauth://` URI with the given URL parts provisions: a name and a
/// credential, or the error it fails with. Other parameters (`issuer`,
/// `algorithm`, ...) are ignored: codes are always computed with HMAC-SHA1.
pub open spec fn parts_spec(p: (Option<Seq<char>>, Seq<char>, Seq<(Seq<char>, Seq<char>)>)) -> Result<
    (Seq<char>, CredentialView),
    TotpError,
> {
    let (host, path, query) = p;
    if host != Some("totp"@) {
        Err(TotpError::UnsupportedMode)
    } else if lookup(query, "secret"@) is None {
        Err(TotpError::MissingSecret)
    } else if optional_param(lookup(query, "digits"@), 6) is Err {
        Err(TotpError::MalformedParameter)
    } else if optional_param(lookup(query, "period"@), 30) is Err {
        Err(TotpError::MalformedParameter)
    } else if label_of(path) is None {
        Err(TotpError::MalformedUri)
    } else {
        Ok(
            (
                label_of(path)->Some_0,
                CredentialView {
                    secret: lookup(query, "secret"@)->Some_0,
                    digits: optional_param(lookup(query, "digits"@), 6)->Ok_0,
                    period: optional_param(lookup(query, "period"@), 30)->Ok_0,
                },
            ),
        )
    }
}

/// What `parse` makes of a URI text.
pub open spec fn parse_spec(s: Seq<char>) -> Result<(Seq<char>, CredentialView), TotpError> {
    match url_parts(s) {
        None => Err(TotpError::MalformedUri),
        Some(p) => parts_spec(p),
    }
}

/// Whether `s` begins with the `otpauth://` scheme marker.
pub open spec fn has_otpauth_prefix(s: Seq<char>) -> bool {
    s.len() >= 10 && s.subrange(0, 10) == "otpauth://"@
}

/// Whether two texts hold the same characters.
pub fn same_text(a: &str, b: &str) -> (r: bool)
    ensures
        r == (a@ == b@),
{
    let n = a.unicode_len();
    if n != b.unicode_len() {
        return false;
    }
    let mut i: usize = 0;
    while i < n
        invariant
            n == a@.len(),
            n == b@.len(),
            i <= n,
            forall|k: int| 0 <= k < i ==> a@[k] == b@[k],
        decreases n - i,
    {
        if a.get_char(i) != b.get_char(i) {
            return false;
        }
        i = i + 1;
    }
    assert(a@ =~= b@);
    true
}

/// Whether `s` begins with `otpauth://`.
pub fn is_otpauth(s: &str) -> (r: bool)
    ensures
        r == has_otpauth_prefix(s@),
{
    proof {
        reveal_strlit("otpauth://");
    }
    let n = s.unicode_len();
    if n < 10 {
        return false;
    }
    same_text(s.substring_char(0, 10), "otpauth://")
}

fn find_value<'a>(q: &'a Vec<(String, String)>, k: &str) -> (r: Option<&'a String>)
    ensures
        match r {
            Some(v) => lookup(pairs_view(q@), k@) == Some(v@),
            None => lookup(pairs_view(q@), k@) is None,
        },
{
    let ghost pv = pairs_view(q@);
    let mut i: usize = 0;
    while i < q.len()
        invariant
            pv == pairs_view(q@),
            i <= q@.len(),
            lookup_from(pv, k@, 0) == lookup_from(pv, k@, i as int),
        decreases q@.len() - i,
    {
        if same_text(q[i].0.as_str(), k) {
            return Some(&q[i].1);
        }
        i = i + 1;
    }
    None
}

proof fn lemma_prefix_value(s: Seq<char>, i: int)
    requires
        0 <= i < s.len(),
        forall|j: int| 0 <= j < s.len() ==> is_digit(#[trigger] s[j]),
    ensures
        decimal_value(s.subrange(0, i + 1)) == 10 * decimal_value(s.subrange(0, i)) + ((s[i] as u32)
            - 48) as nat,
        decimal_value(s.subrange(0, i)) <= decimal_value(s.subrange(0, i + 1)),
{
    assert(s.subrange(0, i + 1).drop_last() =~= s.subrange(0, i));
}

proof fn lemma_value_grows(s: Seq<char>, i: int)
    requires
        0 <= i <= s.len(),
        forall|j: int| 0 <= j < s.len() ==> is_digit(#[trigger] s[j]),
    ensures
        decimal_value(s.subrange(0, i)) <= decimal_value(s),
    decreases s.len() - i,
{
    if i < s.len() {
        lemma_prefix_value(s, i);
        lemma_value_grows(s, i + 1);
    } else {
        assert(s.subrange(0, i) =~= s);
    }
}

/// Reads a `digits` or `period` parameter.
pub fn parse_param(t: &str) -> (r: Option<u32>)
    ensures
        r == param_value(t@),
{
    let n = t.unicode_len();
    if n == 0 {
        return None;
    }
    let mut v: u32 = 0;
    let mut i: usize = 0;
    while i < n
        invariant
            n == t@.len(),
            i <= n,
            forall|j: int| 0 <= j < i ==> is_digit(#[trigger] t@[j]),
            v as nat == decimal_value(t@.subrange(0, i as int)),
        decreases n - i,
    {
        let c = t.get_char(i);
        let cu = c as u32;
        if cu < 48 || cu > 57 {
            return None;
        }
        let d: u32 = cu - 48;
        proof {
            assert(t@.subrange(0, i + 1).drop_last() =~= t@.subrange(0, i as int));
        }
        if v > (u32::MAX - d) / 10 {
            proof {
                assert(10 * decimal_value(t@.subrange(0, i as int)) + d > u32::MAX);
                let s = t@;
                if forall|j: int| 0 <= j < s.len() ==> is_digit(#[trigger] s[j]) {
                    lemma_value_grows(s, i + 1);
                }
            }
            return None;
        }
        v = v * 10 + d;
        i = i + 1;
    }
    assert(t@.subrange(0, n as int) =~= t@);
    if v == 0 {
        return None;
    }
    Some(v)
}

fn optional_param_of(q: &Vec<(String, String)>, k: &str, default: u32) -> (r: Result<u32, TotpError>)
    ensures
        r == optional_param(lookup(pairs_view(q@), k@), default),
{
    match find_value(q, k) {
        None => Ok(default),
        Some(t) => match parse_param(t.as_str()) {
            Some(n) => Ok(n),
            None => Err(TotpError::MalformedParameter),
        },
    }
}

fn label_from_path(path: &String) -> (r: Option<String>)
    ensures
        opt_view(r) == label_of(path@),
{
    let n = path.as_str().unicode_len();
    if n == 0 {
        return None;
    }
    let rest = path.as_str().substring_char(1, n);
    assert(rest@ =~= path@.drop_first());
    match decode_percent(rest) {
        Some(name) => if name.as_str().unicode_len() > 0 {
            Some(name)
        } else {
            None
        },
        None => None,
    }
}

/// Reads a name and a credential out of the parts of an `otpauth://` URI.
pub fn parse_parts(p: &UrlParts) -> (r: Result<(String, Credential), TotpError>)
    ensures
        match r {
            Ok((name, c)) => parts_spec(p@) == Ok::<(Seq<char>, CredentialView), TotpError>((name@, c@)),
            Err(e) => parts_spec(p@) == Err::<(Seq<char>, CredentialView), TotpError>(e),
        },
{
    proof {
        reveal_strlit("totp");
        reveal_strlit("secret");
        reveal_strlit("digits");
        reveal_strlit("period");
    }
    let is_totp = match &p.host {
        Some(h) => same_text(h.as_str(), "totp"),
        None => false,
    };
    if !is_totp {
        return Err(TotpError::UnsupportedMode);
    }
    let secret = match find_value(&p.query, "secret") {
        Some(s) => s.clone(),
        None => return Err(TotpError::MissingSecret),
    };
    let digits = match optional_param_of(&p.query, "digits", 6) {
        Ok(d) => d,
        Err(e) => return Err(e),
    };
    let period = match optional_param_of(&p.query, "period", 30) {
        Ok(d) => d,
        Err(e) => return Err(e),
    };
    let name = match label_from_path(&p.path) {
        Some(n) => n,
        None => return Err(TotpError::MalformedUri),
    };
    Ok((name, Credential::new(secret, digits, period)))
}

/// Reads a name and a credential out of an `otpauth://totp/...` URI.
pub fn parse_otpauth(uri: &str) -> (r: Result<(String, Credential), TotpError>)
    ensures
        match r {
            Ok((name, c)) => parse_spec(uri@) == Ok::<(Seq<char>, CredentialView), TotpError>((name@, c@)),
            Err(e) => parse_spec(uri@) == Err::<(Seq<char>, CredentialView), TotpError>(e),
        },
{
    match parse_url(uri) {
        None => Err(TotpError::MalformedUri),
        Some(p) => parse_parts(&p),
    }
}

} // verus!
