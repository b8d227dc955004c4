use vstd::prelude::*;
use vstd::string::*;

verus! {

/// What `str::to_lowercase` returns for a string.
pub uninterp spec fn lower_of(s: Seq<char>) -> Seq<char>;

/// What `unidecode::unidecode` returns for a string.
pub uninterp spec fn transliterated(s: Seq<char>) -> Seq<char>;

/// Whether `char::is_alphabetic` holds of a character.
pub uninterp spec fn alphabetic(c: char) -> bool;

/// The comparison key of a piece of text: lower-cased, then transliterated.
pub open spec fn normalised_text(s: Seq<char>) -> Seq<char> {
    transliterated(lower_of(s))
}

/// Number of alphabetic characters at the start of `s`.
pub open spec fn alpha_prefix_len(s: Seq<char>) -> nat
    decreases s.len(),
{
    if s.len() > 0 && alphabetic(s[0]) {
        1 + alpha_prefix_len(s.drop_first())
    } else {
        0
    }
}

/// Relies on `str::to_lowercase`: the result depends on the characters alone.
#[verifier::external_body]
pub(crate) fn lowercase(s: &str) -> (r: String)
    ensures
        r@ == lower_of(s@),
{
    s.to_lowercase()
}

/// Relies on `unidecode::unidecode`: an ASCII transliteration that depends on
/// the characters alone.
#[verifier::external_body]
fn transliterate(s: &str) -> (r: String)
    ensures
        r@ == transliterated(s@),
{
    unidecode::unidecode(s)
}

/// Relies on `char::is_alphabetic`: Unicode's Alphabetic property.
#[verifier::external_body]
pub(crate) fn is_name_char(c: char) -> (r: bool)
    ensures
        r == alphabetic(c),
{
    c.is_alphabetic()
}

/// The key under which a name or a path component is compared.
pub fn normalise(text: &str) -> (r: String)
    ensures
        r@ == normalised_text(text@),
{
    let lower = lowercase(text);
    transliterate(lower.as_str())
}

/// Two texts whose lower-case forms agree have the same key: case enters the
/// key only through lower-casing.
pub proof fn lemma_key_follows_lowercase(s: Seq<char>, t: Seq<char>)
    requires
        lower_of(s) == lower_of(t),
    ensures
        normalised_text(s) == normalised_text(t),
{
}

/// Number of alphabetic characters (not bytes) at the start of `v`.
pub fn count_name_chars(v: &str) -> (r: usize)
    ensures
        r == alpha_prefix_len(v@),
{
    let n = v.unicode_len();
    let mut i: usize = 0;
    while i < n
        invariant
            n == v@.len(),
            i <= n,
            forall|k: int| 0 <= k < i ==> alphabetic(#[trigger] v@[k]),
        decreases n - i,
    {
        if !is_name_char(v.get_char(i)) {
            proof { lemma_alpha_prefix_stops(v@, i as int); }
            return i;
        }
        i = i + 1;
    }
    proof { lemma_alpha_prefix_stops(v@, i as int); }
    i
}

/// If the first `i` characters are alphabetic and the next one is not (or
/// there is none), the alphabetic prefix has length `i`.
proof fn lemma_alpha_prefix_stops(s: Seq<char>, i: int)
    requires
        0 <= i <= s.len(),
        forall|k: int| 0 <= k < i ==> alphabetic(#[trigger] s[k]),
        i == s.len() || !alphabetic(s[i]),
    ensures
        alpha_prefix_len(s) == i,
    decreases i,
{
    if i > 0 {
        let t = s.drop_first();
        assert forall|k: int| 0 <= k < i - 1 implies alphabetic(#[trigger] t[k]) by {
            assert(t[k] == s[k + 1]);
        }
        lemma_alpha_prefix_stops(t, i - 1);
    }
}

} // verus!
