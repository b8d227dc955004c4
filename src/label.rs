use vstd::prelude::*;
use vstd::string::*;
use vstd::utf8::{decode_utf8, encode_utf8, valid_utf8};

use crate::abbreviate::{abbreviate_path, abbreviated_path, without_trailing_slash};
use crate::text::{lower_of, lowercase};

verus! {

#[verifier::external_type_specification]
#[verifier::external_body]
pub struct ExParseError(url::ParseError);

/// What `url::Url::parse` makes of a string: `None` where it refuses it, and
/// otherwise the parsed URL's domain (when its host is a domain name) and its
/// serialised path.
pub uninterp spec fn url_parts(s: Seq<char>) -> Option<(Option<Seq<char>>, Seq<char>)>;

/// The value of an ASCII hexadecimal digit (`0`-`9`, `a`-`f`, `A`-`F`).
pub open spec fn hex_value(b: u8) -> Option<int> {
    if 0x30 <= b <= 0x39 {
        Some(b - 0x30)
    } else if 0x61 <= b <= 0x66 {
        Some(b - 0x61 + 10)
    } else if 0x41 <= b <= 0x46 {
        Some(b - 0x41 + 10)
    } else {
        None
    }
}

/// `b` with each `%` (0x25) followed by two hexadecimal digits replaced by the byte
/// that they spell; every other byte, a lone `%` included, stays.
pub open spec fn percent_decoded(b: Seq<u8>) -> Seq<u8>
    decreases b.len(),
{
    if b.len() == 0 {
        b
    } else if b[0] == 0x25 && b.len() >= 3 && hex_value(b[1]) is Some && hex_value(
        b[2],
    ) is Some {
        seq![(hex_value(b[1])->0 * 16 + hex_value(b[2])->0) as u8] + percent_decoded(b.skip(3))
    } else {
        seq![b[0]] + percent_decoded(b.drop_first())
    }
}

/// Length of the first label of a domain: the characters before its first `.`.
pub open spec fn first_label_len(d: Seq<char>) -> nat
    decreases d.len(),
{
    if d.len() == 0 || d[0] == '.' {
        0
    } else {
        1 + first_label_len(d.drop_first())
    }
}

/// A domain without its first label when that label is `www` in any case.
pub open spec fn without_www(d: Seq<char>) -> Seq<char> {
    let n = first_label_len(d) as int;
    if lower_of(d.take(n)) == seq!['w', 'w', 'w'] {
        if n < d.len() {
            d.skip(n + 1)
        } else {
            Seq::empty()
        }
    } else {
        d
    }
}

/// The host part of the label: the domain without `www`, or nothing when the
/// host is not a domain name.
pub open spec fn host_text(domain: Option<Seq<char>>) -> Seq<char> {
    match domain {
        Some(d) => without_www(d),
        None => Seq::empty(),
    }
}

/// The path part of the label: the decoded path, or nothing when it is `/`.
pub open spec fn path_text(decoded: Seq<char>) -> Seq<char> {
    if decoded == seq!['/'] {
        Seq::empty()
    } else {
        decoded
    }
}

/// The bytes of a serialised path, without its trailing `/`, percent-decoded.
pub open spec fn path_bytes(path: Seq<char>) -> Seq<u8> {
    percent_decoded(encode_utf8(without_trailing_slash(path)))
}

/// The label for a host and a decoded path: host and path as they are when no
/// budget is given or when they fit in it, and the host followed by the
/// abbreviated path otherwise.
pub open spec fn label(
    host: Seq<char>,
    decoded: Seq<char>,
    names: Seq<&str>,
    max: Option<usize>,
) -> Seq<char> {
    let full = host + path_text(decoded);
    match max {
        Some(m) => if full.len() > m {
            host + abbreviated_path(decoded, names)
        } else {
            full
        },
        None => full,
    }
}

/// What abbreviating a parsed URL gives: its label, or an error when its path
/// does not decode to UTF-8.
pub open spec fn parsed_outcome(
    domain: Option<Seq<char>>,
    path: Seq<char>,
    names: Seq<&str>,
    max: Option<usize>,
) -> Result<Seq<char>, Seq<char>> {
    let bytes = path_bytes(path);
    if valid_utf8(bytes) {
        Ok(label(host_text(domain), decode_utf8(bytes), names, max))
    } else {
        Err("Failed to decode UTF8"@)
    }
}

/// What abbreviating a URL string gives.
pub open spec fn outcome(url: Seq<char>, names: Seq<&str>, max: Option<usize>) -> Result<
    Seq<char>,
    Seq<char>,
> {
    match url_parts(url) {
        Some((domain, path)) => parsed_outcome(domain, path, names, max),
        None => Err("Failed to parse URL"@),
    }
}

pub open spec fn result_view(r: Result<String, &str>) -> Result<Seq<char>, Seq<char>> {
    match r {
        Ok(s) => Ok(s@),
        Err(e) => Err(e@),
    }
}

pub open spec fn option_view(o: Option<String>) -> Option<Seq<char>> {
    match o {
        Some(s) => Some(s@),
        None => None,
    }
}

/// Relies on `url::Url::parse`, and on `Url::host` and `Url::path` to read the
/// domain and the serialised path of what it parsed. All three depend on the
/// input string alone.
#[verifier::external_body]
fn parse_url(s: &str) -> (r: Result<(Option<String>, String), url::ParseError>)
    ensures
        r is Ok <==> url_parts(s@) is Some,
        r is Ok ==> url_parts(s@) == Some((option_view(r->Ok_0.0), r->Ok_0.1@)),
{
    match url::Url::parse(s) {
        Ok(u) => {
            let domain = match u.host() {
                Some(url::Host::Domain(d)) => Some(d.to_string()),
                _ => None,
            };
            Ok((domain, u.path().to_string()))
        },
        Err(e) => Err(e),
    }
}

/// Relies on `percent_encoding::percent_decode` and
/// `PercentDecode::decode_utf8`: `%` and two hexadecimal digits become one
/// byte, and the bytes are then read as UTF-8, which fails where they are not
/// valid UTF-8.
#[verifier::external_body]
fn percent_decode_utf8(s: &str) -> (r: Option<String>)
    ensures
        r is Some <==> valid_utf8(percent_decoded(encode_utf8(s@))),
        r is Some ==> r->0@ == decode_utf8(percent_decoded(encode_utf8(s@))),
{
    match percent_encoding::percent_decode(s.as_bytes()).decode_utf8() {
        Ok(decoded) => Some(decoded.into_owned()),
        Err(_) => None,
    }
}

proof fn lemma_first_label_stops(d: Seq<char>, i: int)
    requires
        0 <= i <= d.len(),
        forall|k: int| 0 <= k < i ==> #[trigger] d[k] != '.',
        i == d.len() || d[i] == '.',
    ensures
        first_label_len(d) == i,
    decreases i,
{
    if i > 0 {
        let t = d.drop_first();
        assert forall|k: int| 0 <= k < i - 1 implies #[trigger] t[k] != '.' by {
            assert(t[k] == d[k + 1]);
        }
        lemma_first_label_stops(t, i - 1);
    }
}

/// A domain without a leading `www` label.
fn strip_www(domain: &str) -> (r: String)
    ensures
        r@ == without_www(domain@),
{
    let n = domain.unicode_len();
    let mut i: usize = 0;
    while i < n && domain.get_char(i) != '.'
        invariant
            n == domain@.len(),
            i <= n,
            forall|k: int| 0 <= k < i ==> #[trigger] domain@[k] != '.',
        decreases n - i,
    {
        i = i + 1;
    }
    proof {
        lemma_first_label_stops(domain@, i as int);
    }
    let first = lowercase(domain.substring_char(0, i));
    let www = String::from_str("www");
    proof {
        reveal_strlit("www");
        assert(www@ =~= seq!['w', 'w', 'w']);
    }
    if first == www {
        if i < n {
            String::from_str(domain.substring_char(i + 1, n))
        } else {
            String::new()
        }
    } else {
        String::from_str(domain)
    }
}

fn without_final_slash(s: &str) -> (r: &str)
    ensures
        r@ == without_trailing_slash(s@),
{
    let n = s.unicode_len();
    if n > 0 && s.get_char(n - 1) == '/' {
        s.substring_char(0, n - 1)
    } else {
        s
    }
}

/// Abbreviates a URL that is already parsed into its domain (when its host is
/// a domain name) and its serialised path.
pub fn abbreviate_parsed(
    domain: Option<&str>,
    path: &str,
    important_names: &[&str],
    desired_max_length: Option<usize>,
) -> (r: Result<String, &'static str>)
    ensures
        result_view(r) == parsed_outcome(
            match domain {
                Some(d) => Some(d@),
                None => None,
            },
            path@,
            important_names@,
            desired_max_length,
        ),
{
    let mut host = match domain {
        Some(d) => strip_www(d),
        None => String::new(),
    };
    let decoded = match percent_decode_utf8(without_final_slash(path)) {
        Some(decoded) => decoded,
        None => return Err("Failed to decode UTF8"),
    };
    let n = decoded.as_str().unicode_len();
    let is_root = n == 1 && decoded.as_str().get_char(0) == '/';
    assert(is_root == (decoded@ == seq!['/'])) by {
        if decoded@ == seq!['/'] {
            assert(decoded@[0] == '/');
        }
        if is_root {
            assert(decoded@ =~= seq!['/']);
        }
    }
    let host_len = host.as_str().unicode_len();
    let path_len: usize = if is_root {
        0
    } else {
        n
    };
    match desired_max_length {
        Some(m) if host_len > m || path_len > m - host_len => {
            let short = abbreviate_path(decoded.as_str(), important_names);
            host.append(short.as_str());
            Ok(host)
        },
        _ => {
            if !is_root {
                host.append(decoded.as_str());
            }
            Ok(host)
        },
    }
}

/// Shortens `url_string` into a label of at most `desired_max_length`
/// characters where the path allows it, keeping the components that match
/// `important_names` visible.
pub fn abbreviate_max(
    url_string: &str,
    important_names: &[&str],
    desired_max_length: Option<usize>,
) -> (r: Result<String, &'static str>)
    ensures
        result_view(r) == outcome(url_string@, important_names@, desired_max_length),
{
    match parse_url(url_string) {
        Ok((domain, path)) => {
            let d = match &domain {
                Some(d) => Some(d.as_str()),
                None => None,
            };
            abbreviate_parsed(d, path.as_str(), important_names, desired_max_length)
        },
        Err(_) => Err("Failed to parse URL"),
    }
}

/// A label that fits in the budget, or that has no budget, is the host and
/// decoded path themselves: no abbreviation marker is added.
pub proof fn lemma_short_label_unchanged(
    host: Seq<char>,
    decoded: Seq<char>,
    names: Seq<&str>,
    max: Option<usize>,
)
    requires
        max is None || (host + path_text(decoded)).len() <= max->0,
    ensures
        label(host, decoded, names, max) == host + path_text(decoded),
{
}

} // verus!
