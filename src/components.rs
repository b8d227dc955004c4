use vstd::prelude::*;
use vstd::string::*;

use crate::text::{alpha_prefix_len, alphabetic, count_name_chars, is_name_char, normalise, normalised_text};

verus! {

/// One segment of a path: the exact text it covers, trailing separators
/// included, and the comparison key of its leading alphabetic run.
pub struct PathComponent<'a> {
    original: &'a str,
    normalised: String,
}

impl<'a> PathComponent<'a> {
    /// The text that this component covers.
    pub closed spec fn original_view(&self) -> Seq<char> {
        self.original@
    }

    /// The key under which this component is compared with names.
    pub closed spec fn normalised_view(&self) -> Seq<char> {
        self.normalised@
    }

    pub(crate) fn new(original: &'a str, normalised: String) -> (r: Self)
        ensures
            r.original_view() == original@,
            r.normalised_view() == normalised@,
    {
        PathComponent { original, normalised }
    }

    pub fn get_original(&self) -> (r: &'a str)
        ensures
            r@ == self.original_view(),
    {
        self.original
    }

    pub fn get_normalised(&self) -> (r: &String)
        ensures
            r@ == self.normalised_view(),
    {
        &self.normalised
    }
}

impl<'a> Clone for PathComponent<'a> {
    fn clone(&self) -> (r: Self)
        ensures
            r.original_view() == self.original_view(),
            r.normalised_view() == self.normalised_view(),
    {
        PathComponent { original: self.original, normalised: self.normalised.clone() }
    }
}

/// The key of a component's text: the normalised form of its leading
/// alphabetic run (empty when it starts with a separator).
pub open spec fn component_key(piece: Seq<char>) -> Seq<char> {
    normalised_text(piece.take(alpha_prefix_len(piece) as int))
}

/// Whether some character before position `i` of `p` is alphabetic.
pub open spec fn alpha_before(p: Seq<char>, i: int) -> bool {
    exists|j: int| 0 <= j < i && alphabetic(#[trigger] p[j])
}

/// Whether a new component starts at position `i` of `p`: at the first
/// character; where an alphabetic run starts after a separator; and right
/// after a `/`, once some alphabetic character has been seen.
pub open spec fn starts_component(p: Seq<char>, i: int) -> bool {
    ||| i == 0
    ||| alphabetic(p[i]) && !alphabetic(p[i - 1])
    ||| p[i - 1] == '/' && alpha_before(p, i)
}

/// The texts of the components of the first `n` characters of `p`.
pub open spec fn pieces_upto(p: Seq<char>, n: int) -> Seq<Seq<char>>
    decreases n,
{
    if n <= 0 {
        Seq::empty()
    } else {
        let ps = pieces_upto(p, n - 1);
        if starts_component(p, n - 1) || ps.len() == 0 {
            ps.push(seq![p[n - 1]])
        } else {
            ps.update(ps.len() - 1, ps.last().push(p[n - 1]))
        }
    }
}

/// The texts of the components of `p`, in order.
pub open spec fn pieces(p: Seq<char>) -> Seq<Seq<char>> {
    pieces_upto(p, p.len() as int)
}

/// The texts of a sequence of components.
pub open spec fn originals(cs: Seq<PathComponent>) -> Seq<Seq<char>> {
    cs.map_values(|c: PathComponent| c.original_view())
}

/// The texts of `s`, one after the other.
pub open spec fn concat(s: Seq<Seq<char>>) -> Seq<char>
    decreases s.len(),
{
    if s.len() == 0 {
        Seq::empty()
    } else {
        concat(s.drop_last()) + s.last()
    }
}

/// The component covering characters `start..end` of `path`.
fn make_component<'a>(path: &'a str, start: usize, end: usize) -> (r: PathComponent<'a>)
    requires
        start <= end <= path@.len(),
    ensures
        r.original_view() == path@.subrange(start as int, end as int),
        r.normalised_view() == component_key(r.original_view()),
{
    let original = path.substring_char(start, end);
    let word_len = count_name_chars(original);
    proof {
        lemma_alpha_prefix_len_bound(original@);
    }
    let word = original.substring_char(0, word_len);
    PathComponent { original, normalised: normalise(word) }
}

proof fn lemma_alpha_prefix_len_bound(s: Seq<char>)
    ensures
        alpha_prefix_len(s) <= s.len(),
    decreases s.len(),
{
    if s.len() > 0 {
        lemma_alpha_prefix_len_bound(s.drop_first());
    }
}

/// Splits a path into its components, on character boundaries.
pub fn split_path<'a>(path: &'a str) -> (r: Vec<PathComponent<'a>>)
    ensures
        originals(r@) == pieces(path@),
        forall|k: int|
            0 <= k < r@.len() ==> (#[trigger] r@[k]).normalised_view() == component_key(
                r@[k].original_view(),
            ),
{
    let ghost p = path@;
    let n = path.unicode_len();
    let mut result: Vec<PathComponent<'a>> = Vec::new();
    let mut start: usize = 0;
    let mut seen_alpha = false;
    let mut prev_alpha = false;
    let mut prev_slash = false;
    let mut i: usize = 0;
    while i < n
        invariant
            p == path@,
            n == p.len(),
            start <= i <= n,
            seen_alpha == alpha_before(p, i as int),
            i > 0 ==> prev_alpha == alphabetic(p[i - 1]),
            i > 0 ==> prev_slash == (p[i - 1] == '/'),
            i == 0 ==> result@.len() == 0 && start == 0,
            i > 0 ==> pieces_upto(p, i as int) == originals(result@).push(
                p.subrange(start as int, i as int),
            ),
            forall|k: int|
                0 <= k < result@.len() ==> (#[trigger] result@[k]).normalised_view()
                    == component_key(result@[k].original_view()),
        decreases n - i,
    {
        let c = path.get_char(i);
        let alpha = is_name_char(c);
        let ghost old_result = result@;
        let ghost old_start = start;
        if i > 0 && ((alpha && !prev_alpha) || (prev_slash && seen_alpha)) {
            let component = make_component(path, start, i);
            result.push(component);
            start = i;
        }
        proof {
            let ps = pieces_upto(p, i as int);
            assert(p.subrange(i as int, i + 1) =~= seq![p[i as int]]);
            if i == 0 {
                assert(pieces_upto(p, 1) =~= seq![seq![p[0]]]);
            } else if starts_component(p, i as int) {
                assert(originals(result@) =~= originals(old_result).push(
                    p.subrange(old_start as int, i as int),
                ));
            } else {
                assert(originals(result@) =~= originals(old_result));
                assert(p.subrange(start as int, i + 1) =~= p.subrange(start as int, i as int).push(
                    p[i as int],
                ));
                assert(ps.update(ps.len() - 1, ps.last().push(p[i as int])) =~= originals(
                    result@,
                ).push(p.subrange(start as int, i + 1)));
            }
            if alpha {
                assert(alphabetic(p[i as int]));
            }
        }
        seen_alpha = seen_alpha || alpha;
        prev_alpha = alpha;
        prev_slash = c == '/';
        i = i + 1;
        assert(seen_alpha == alpha_before(p, i as int));
    }
    if n > 0 {
        let ghost old_result = result@;
        let component = make_component(path, start, n);
        result.push(component);
        assert(originals(result@) =~= originals(old_result).push(
            p.subrange(start as int, n as int),
        ));
    } else {
        assert(originals(result@) =~= pieces(p));
    }
    result
}

/// Joins the components' texts back into one string, with nothing added.
pub fn rebuild_path(path: &[PathComponent]) -> (r: String)
    ensures
        r@ == concat(originals(path@)),
{
    let mut result = String::new();
    let mut i: usize = 0;
    while i < path.len()
        invariant
            i <= path@.len(),
            result@ == concat(originals(path@.take(i as int))),
        decreases path@.len() - i,
    {
        proof {
            let prefix = originals(path@.take(i as int));
            let next = originals(path@.take(i + 1));
            assert(next.drop_last() =~= prefix);
        }
        result.append(path[i].original);
        i = i + 1;
    }
    assert(path@.take(i as int) =~= path@);
    result
}

/// Rebuilding the components of any path gives back that path, character for
/// character.
pub proof fn lemma_split_rebuild(p: Seq<char>)
    ensures
        concat(pieces(p)) == p,
{
    lemma_pieces_upto_concat(p, p.len() as int);
    assert(p.take(p.len() as int) =~= p);
}

proof fn lemma_pieces_upto_concat(p: Seq<char>, n: int)
    requires
        0 <= n <= p.len(),
    ensures
        concat(pieces_upto(p, n)) == p.take(n),
    decreases n,
{
    if n == 0 {
        assert(p.take(0) =~= Seq::<char>::empty());
    } else {
        lemma_pieces_upto_concat(p, n - 1);
        let ps = pieces_upto(p, n - 1);
        let c = p[n - 1];
        assert(p.take(n) =~= p.take(n - 1).push(c));
        if starts_component(p, n - 1) || ps.len() == 0 {
            let qs = ps.push(seq![c]);
            assert(qs.drop_last() =~= ps);
            assert(p.take(n - 1) + seq![c] =~= p.take(n));
        } else {
            let qs = ps.update(ps.len() - 1, ps.last().push(c));
            assert(qs.drop_last() =~= ps.drop_last());
            assert(concat(ps.drop_last()) + ps.last().push(c) =~= (concat(ps.drop_last())
                + ps.last()).push(c));
        }
    }
}

} // verus!
