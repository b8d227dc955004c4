use vstd::prelude::*;
use vstd::string::*;

use crate::components::{
    component_key, concat, originals, pieces, rebuild_path, split_path, PathComponent,
};
use crate::text::{normalise, normalised_text};

verus! {

/// Whether the last character of `s` is a `/`.
pub open spec fn ends_with_slash(s: Seq<char>) -> bool {
    s.len() > 0 && s.last() == '/'
}

/// `s` without its trailing `/`, if it has one.
pub open spec fn without_trailing_slash(s: Seq<char>) -> Seq<char> {
    if ends_with_slash(s) {
        s.drop_last()
    } else {
        s
    }
}

/// The text shown for a component that matched no name: `.../` for one longer
/// than four characters that ends in `/`, `...` for one longer than three that
/// does not, and the component itself when it is too short to gain anything.
pub open spec fn abbreviated(s: Seq<char>) -> Seq<char> {
    if ends_with_slash(s) {
        if s.len() > 4 {
            seq!['.', '.', '.', '/']
        } else {
            s
        }
    } else if s.len() > 3 {
        seq!['.', '.', '.']
    } else {
        s
    }
}

/// `s` without the first element equal to `x`.
pub open spec fn remove_first(s: Seq<Seq<char>>, x: Seq<char>) -> Seq<Seq<char>>
    decreases s.len(),
{
    if s.len() == 0 {
        s
    } else if s[0] == x {
        s.drop_first()
    } else {
        seq![s[0]] + remove_first(s.drop_first(), x)
    }
}

/// The texts emitted for the components `pcs` while `names` are still
/// looked for: a component whose key is among the names is kept and uses that
/// name up, any other is abbreviated, and nothing is emitted once every name is
/// found.
pub open spec fn walk(pcs: Seq<Seq<char>>, names: Seq<Seq<char>>) -> Seq<Seq<char>>
    decreases pcs.len(),
{
    if pcs.len() == 0 || names.len() == 0 {
        Seq::empty()
    } else {
        let key = component_key(pcs[0]);
        if names.contains(key) {
            seq![pcs[0]] + walk(pcs.drop_first(), remove_first(names, key))
        } else {
            seq![abbreviated(pcs[0])] + walk(pcs.drop_first(), names)
        }
    }
}

/// `out` with the trailing `/` of its last text taken off.
pub open spec fn strip_last(out: Seq<Seq<char>>) -> Seq<Seq<char>> {
    if out.len() == 0 {
        out
    } else {
        out.update(out.len() - 1, without_trailing_slash(out.last()))
    }
}

/// The keys of the important names.
pub open spec fn name_keys(names: Seq<&str>) -> Seq<Seq<char>> {
    names.map_values(|s: &str| normalised_text(s@))
}

/// The abbreviated form of a decoded path, for the given important names.
pub open spec fn abbreviated_path(p: Seq<char>, names: Seq<&str>) -> Seq<char> {
    concat(strip_last(walk(pieces(p), name_keys(names))))
}

spec fn string_views(v: Seq<String>) -> Seq<Seq<char>> {
    v.map_values(|s: String| s@)
}

fn ends_in_slash(s: &str) -> (r: bool)
    ensures
        r == ends_with_slash(s@),
{
    let n = s.unicode_len();
    n > 0 && s.get_char(n - 1) == '/'
}

/// Drops the trailing `/` of a component, keeping its key.
pub fn remove_trailing_slash<'a>(component: PathComponent<'a>) -> (r: PathComponent<'a>)
    ensures
        r.original_view() == without_trailing_slash(component.original_view()),
        r.normalised_view() == component.normalised_view(),
{
    let original = component.get_original();
    if ends_in_slash(original) {
        let n = original.unicode_len();
        let shorter = original.substring_char(0, n - 1);
        let normalised = component.get_normalised().clone();
        assert(shorter@ =~= original@.drop_last());
        PathComponent::new(shorter, normalised)
    } else {
        component
    }
}

/// Replaces a component that matched no name by the abbreviation marker, where
/// that makes it shorter.
pub fn replace_with_abbreviation<'a>(component: PathComponent<'a>) -> (r: PathComponent<'a>)
    ensures
        r.original_view() == abbreviated(component.original_view()),
{
    let original = component.get_original();
    let n = original.unicode_len();
    if ends_in_slash(original) {
        if n > 4 {
            let marker = ".../";
            proof {
                reveal_strlit(".../");
                assert(marker@ =~= seq!['.', '.', '.', '/']);
            }
            return PathComponent::new(marker, String::new());
        }
    } else if n > 3 {
        let marker = "...";
        proof {
            reveal_strlit("...");
            assert(marker@ =~= seq!['.', '.', '.']);
        }
        return PathComponent::new(marker, String::new());
    }
    component
}

proof fn lemma_remove_first(s: Seq<Seq<char>>, x: Seq<char>, j: int)
    requires
        0 <= j < s.len(),
        s[j] == x,
        forall|k: int| 0 <= k < j ==> s[k] != x,
    ensures
        remove_first(s, x) == s.remove(j),
    decreases j,
{
    if j > 0 {
        let t = s.drop_first();
        assert forall|k: int| 0 <= k < j - 1 implies t[k] != x by {
            assert(t[k] == s[k + 1]);
        }
        lemma_remove_first(t, x, j - 1);
        assert(seq![s[0]] + t.remove(j - 1) =~= s.remove(j));
    } else {
        assert(s.drop_first() =~= s.remove(0));
    }
}

/// The position of the first name equal to `key`, if any.
fn find_name(names: &Vec<String>, key: &String) -> (r: Option<usize>)
    ensures
        match r {
            Some(j) => j < names@.len() && names@[j as int]@ == key@ && forall|k: int|
                0 <= k < j ==> names@[k]@ != key@,
            None => forall|k: int| 0 <= k < names@.len() ==> names@[k]@ != key@,
        },
{
    let mut j: usize = 0;
    while j < names.len()
        invariant
            j <= names@.len(),
            forall|k: int| 0 <= k < j ==> names@[k]@ != key@,
        decreases names@.len() - j,
    {
        if names[j] == *key {
            return Some(j);
        }
        j = j + 1;
    }
    None
}

/// The keys of the important names, in order.
fn normalise_names(names: &[&str]) -> (r: Vec<String>)
    ensures
        string_views(r@) == name_keys(names@),
{
    let mut keys: Vec<String> = Vec::new();
    let mut i: usize = 0;
    while i < names.len()
        invariant
            i <= names@.len(),
            string_views(keys@) == name_keys(names@.take(i as int)),
        decreases names@.len() - i,
    {
        let key = normalise(names[i]);
        keys.push(key);
        assert(name_keys(names@.take(i + 1)) =~= name_keys(names@.take(i as int)).push(
            normalised_text(names@[i as int]@),
        ));
        assert(string_views(keys@) =~= name_keys(names@.take(i as int)).push(
            normalised_text(names@[i as int]@),
        ));
        i = i + 1;
    }
    assert(names@.take(i as int) =~= names@);
    keys
}

/// Abbreviates a decoded path: components that match an important name stay as
/// they are, the others are collapsed, the path ends after the last name found,
/// and the last emitted component loses its trailing `/`.
pub fn abbreviate_path(path: &str, names: &[&str]) -> (r: String)
    ensures
        r@ == abbreviated_path(path@, names@),
{
    let components = split_path(path);
    let mut remaining = normalise_names(names);
    let ghost pcs = pieces(path@);
    let ghost keys = name_keys(names@);
    let mut out: Vec<PathComponent> = Vec::new();
    let mut i: usize = 0;
    assert(pcs.skip(0) =~= pcs);
    assert(originals(out@) + walk(pcs, keys) =~= walk(pcs, keys));
    while i < components.len() && remaining.len() > 0
        invariant
            originals(components@) == pcs,
            forall|k: int|
                0 <= k < components@.len() ==> (#[trigger] components@[k]).normalised_view()
                    == component_key(components@[k].original_view()),
            i <= components@.len(),
            originals(out@) + walk(pcs.skip(i as int), string_views(remaining@)) == walk(
                pcs,
                keys,
            ),
        decreases components@.len() - i,
    {
        let ghost rem = string_views(remaining@);
        let ghost before = originals(out@);
        let component = components[i].clone();
        assert(pcs.skip(i as int)[0] == pcs[i as int]);
        assert(pcs.skip(i as int).drop_first() =~= pcs.skip(i + 1));
        let key = component.get_normalised();
        let found = find_name(&remaining, key);
        match found {
            Some(j) => {
                proof {
                    assert(rem[j as int] == key@);
                    lemma_remove_first(rem, key@, j as int);
                }
                remaining.remove(j);
                assert(string_views(remaining@) =~= rem.remove(j as int));
                out.push(component);
            },
            None => {
                assert(!rem.contains(key@));
                let replaced = replace_with_abbreviation(component);
                out.push(replaced);
            },
        }
        assert(originals(out@) =~= before.push(originals(out@).last()));
        assert(before + walk(pcs.skip(i as int), rem) =~= originals(out@) + walk(
            pcs.skip(i + 1),
            string_views(remaining@),
        ));
        i = i + 1;
    }
    assert(walk(pcs.skip(i as int), string_views(remaining@)) =~= Seq::<Seq<char>>::empty());
    assert(originals(out@) =~= walk(pcs, keys));
    let ghost emitted = out@;
    if out.len() > 0 {
        let last = out.pop().unwrap();
        out.push(remove_trailing_slash(last));
        assert(originals(out@) =~= strip_last(originals(emitted)));
    } else {
        assert(originals(out@) =~= strip_last(originals(emitted)));
    }
    rebuild_path(out.as_slice())
}

} // verus!
