//! The names of the entries of a folder, put in order.
//!
//! The names are ordered by their keys: the names in small letters, taken
//! character by character. Names with the same key keep the order in which
//! they came.

use vstd::prelude::*;
use crate::error::LoadError;
use crate::text::chars_of;

verus! {

/// What `str::to_lowercase` returns for a text.
pub uninterp spec fn lowercase(text: Seq<char>) -> Seq<char>;

/// `a` comes before `b` where the texts are compared character by
/// character: at the first place where they differ `a` has the smaller
/// character, or `a` ends there and `b` goes on.
pub open spec fn text_before(a: Seq<char>, b: Seq<char>) -> bool
    decreases a.len(),
{
    if b.len() == 0 {
        false
    } else if a.len() == 0 {
        true
    } else if a[0] != b[0] {
        a[0] < b[0]
    } else {
        text_before(a.drop_first(), b.drop_first())
    }
}

/// The place `i` comes before the place `j`: its key comes first, or the
/// keys are the same and `i` is the earlier place.
pub open spec fn place_before(keys: Seq<Seq<char>>, i: int, j: int) -> bool {
    text_before(keys[i], keys[j]) || (keys[i] == keys[j] && i < j)
}

/// `order` lists the places from `from` up to `to`, each once, so that each
/// comes before those after it.
pub open spec fn orders(order: Seq<usize>, keys: Seq<Seq<char>>, from: int, to: int) -> bool {
    &&& order.len() == to - from
    &&& forall|k: int| 0 <= k < order.len() ==> from <= #[trigger] order[k] < to
    &&& forall|place: usize| from <= place < to ==> #[trigger] order.contains(place)
    &&& forall|a: int, b: int|
        0 <= a < b < order.len() ==> place_before(
            keys,
            #[trigger] order[a] as int,
            #[trigger] order[b] as int,
        )
}

/// `order` lists all the places of `keys` in ascending order.
pub open spec fn is_ordering(order: Seq<usize>, keys: Seq<Seq<char>>) -> bool {
    orders(order, keys, 0, keys.len() as int)
}

/// The names in the places that `order` lists.
pub open spec fn arranged(names: Seq<Seq<char>>, order: Seq<usize>) -> Seq<Seq<char>> {
    Seq::new(order.len(), |k: int| names[order[k] as int])
}

/// The keys of names: each in small letters.
pub open spec fn keys_of(names: Seq<Seq<char>>) -> Seq<Seq<char>> {
    names.map_values(|name: Seq<char>| lowercase(name))
}

/// The entries that have a name, in their order.
pub open spec fn named(entries: Seq<Option<Seq<char>>>) -> Seq<Seq<char>>
    decreases entries.len(),
{
    if entries.len() == 0 {
        Seq::empty()
    } else {
        match entries.last() {
            Some(name) => named(entries.drop_last()).push(name),
            None => named(entries.drop_last()),
        }
    }
}

/// `sorted` holds `names` in the order of `keys`.
pub open spec fn is_sorted_by(
    sorted: Seq<Seq<char>>,
    names: Seq<Seq<char>>,
    keys: Seq<Seq<char>>,
) -> bool {
    exists|order: Seq<usize>| is_ordering(order, keys) && sorted == arranged(names, order)
}

/// No text comes before itself.
pub proof fn lemma_text_before_irreflexive(a: Seq<char>)
    ensures
        !text_before(a, a),
    decreases a.len(),
{
    if a.len() > 0 {
        lemma_text_before_irreflexive(a.drop_first());
    }
}

/// Of two texts one comes before the other, or they are the same.
pub proof fn lemma_text_before_total(a: Seq<char>, b: Seq<char>)
    ensures
        text_before(a, b) || text_before(b, a) || a == b,
    decreases a.len(),
{
    if a.len() == 0 || b.len() == 0 {
        if a.len() == 0 && b.len() == 0 {
            assert(a =~= b);
        }
    } else if a[0] == b[0] {
        lemma_text_before_total(a.drop_first(), b.drop_first());
        if a.drop_first() == b.drop_first() {
            assert(a =~= seq![a[0]] + a.drop_first());
            assert(b =~= seq![b[0]] + b.drop_first());
        }
    }
}

/// What comes before a text comes before all that the text comes before.
pub proof fn lemma_text_before_transitive(a: Seq<char>, b: Seq<char>, c: Seq<char>)
    requires
        text_before(a, b),
        text_before(b, c),
    ensures
        text_before(a, c),
    decreases a.len(),
{
    if a.len() > 0 && a[0] == b[0] && b[0] == c[0] {
        lemma_text_before_transitive(a.drop_first(), b.drop_first(), c.drop_first());
    }
}

/// The order of the places is transitive.
pub proof fn lemma_place_before_transitive(keys: Seq<Seq<char>>, i: int, j: int, k: int)
    requires
        place_before(keys, i, j),
        place_before(keys, j, k),
    ensures
        place_before(keys, i, k),
{
    if text_before(keys[i], keys[j]) && text_before(keys[j], keys[k]) {
        lemma_text_before_transitive(keys[i], keys[j], keys[k]);
    }
}

/// Two different places are never both before each other, and one of them
/// is before the other.
pub proof fn lemma_place_before_strict(keys: Seq<Seq<char>>, i: int, j: int)
    ensures
        !(place_before(keys, i, j) && place_before(keys, j, i)),
        i != j ==> place_before(keys, i, j) || place_before(keys, j, i),
{
    lemma_text_before_total(keys[i], keys[j]);
    lemma_text_before_irreflexive(keys[i]);
    if text_before(keys[i], keys[j]) && text_before(keys[j], keys[i]) {
        lemma_text_before_transitive(keys[i], keys[j], keys[i]);
    }
}

/// There is only one way to put the places in order.
pub proof fn lemma_ordering_unique(first: Seq<usize>, second: Seq<usize>, keys: Seq<Seq<char>>)
    requires
        is_ordering(first, keys),
        is_ordering(second, keys),
    ensures
        first == second,
{
    assert forall|k: int| 0 <= k < first.len() implies first[k] == second[k] by {
        lemma_same_prefix(first, second, keys, k + 1);
    }
    assert(first =~= second);
}

/// Two orderings of the same places agree on their first `upto` places.
proof fn lemma_same_prefix(first: Seq<usize>, second: Seq<usize>, keys: Seq<Seq<char>>, upto: int)
    requires
        is_ordering(first, keys),
        is_ordering(second, keys),
        0 <= upto <= keys.len(),
    ensures
        forall|k: int| 0 <= k < upto ==> first[k] == second[k],
    decreases upto,
{
    if upto > 0 {
        lemma_same_prefix(first, second, keys, upto - 1);
        let at = upto - 1;
        let p = first[at] as int;
        let q = second[at] as int;
        if p != q {
            assert(second.contains(first[at]));
            assert(first.contains(second[at]));
            let kp = choose|k: int| 0 <= k < second.len() && second[k] == first[at];
            let kq = choose|k: int| 0 <= k < first.len() && first[k] == second[at];
            if kp < at {
                assert(first[kp] == second[kp]);
                assert(place_before(keys, first[kp] as int, first[at] as int));
                lemma_place_before_strict(keys, p, p);
            }
            if kq < at {
                assert(first[kq] == second[kq]);
                assert(place_before(keys, second[kq] as int, second[at] as int));
                lemma_place_before_strict(keys, q, q);
            }
            assert(place_before(keys, second[at] as int, second[kp] as int));
            assert(place_before(keys, first[at] as int, first[kq] as int));
            lemma_place_before_strict(keys, p, q);
        }
    }
}

/// Tells whether `a` comes before `b`.
pub fn text_is_before(a: &Vec<char>, b: &Vec<char>) -> (before: bool)
    ensures
        before == text_before(a@, b@),
{
    let mut i: usize = 0;
    proof {
        assert(a@.skip(0) =~= a@);
        assert(b@.skip(0) =~= b@);
    }
    while i < a.len() && i < b.len()
        invariant
            i <= a.len(),
            i <= b.len(),
            text_before(a@, b@) == text_before(a@.skip(i as int), b@.skip(i as int)),
        decreases a.len() - i,
    {
        let ghost rest_a = a@.skip(i as int);
        let ghost rest_b = b@.skip(i as int);
        proof {
            assert(rest_a[0] == a@[i as int]);
            assert(rest_b[0] == b@[i as int]);
            assert(rest_a.drop_first() =~= a@.skip(i + 1));
            assert(rest_b.drop_first() =~= b@.skip(i + 1));
        }
        if a[i] != b[i] {
            return a[i] < b[i];
        }
        i = i + 1;
    }
    i < b.len()
}

/// `str::to_lowercase`: the text in small letters.
#[verifier::external_body]
fn to_lowercase(text: &str) -> (lower: String)
    ensures
        lower@ == lowercase(text@),
{
    text.to_lowercase()
}

/// The characters of each key.
spec fn texts(keys: Seq<Vec<char>>) -> Seq<Seq<char>> {
    keys.map_values(|key: Vec<char>| key@)
}

/// Merges two runs of places that are in order, the first of places before
/// `mid` and the second of places from `mid` on, into one run in order.
fn merge(keys: &Vec<Vec<char>>, left: Vec<usize>, right: Vec<usize>, from: usize, mid: usize, to: usize) -> (out: Vec<usize>)
    requires
        from <= mid <= to <= keys.len(),
        orders(left@, texts(keys@), from as int, mid as int),
        orders(right@, texts(keys@), mid as int, to as int),
    ensures
        orders(out@, texts(keys@), from as int, to as int),
{
    let ghost k = texts(keys@);
    let mut out: Vec<usize> = Vec::new();
    let mut i: usize = 0;
    let mut j: usize = 0;
    while i < left.len() || j < right.len()
        invariant
            from <= mid <= to <= keys.len(),
            k == texts(keys@),
            orders(left@, k, from as int, mid as int),
            orders(right@, k, mid as int, to as int),
            i <= left.len(),
            j <= right.len(),
            out.len() == i + j,
            forall|n: int| 0 <= n < out.len() ==> from <= #[trigger] out@[n] < to,
            forall|n: int| 0 <= n < i ==> out@.contains(#[trigger] left@[n]),
            forall|n: int| 0 <= n < j ==> out@.contains(#[trigger] right@[n]),
            forall|a: int, b: int|
                0 <= a < b < out.len() ==> place_before(
                    k,
                    #[trigger] out@[a] as int,
                    #[trigger] out@[b] as int,
                ),
            forall|n: int|
                0 <= n < out.len() && i < left.len() ==> place_before(
                    k,
                    #[trigger] out@[n] as int,
                    left@[i as int] as int,
                ),
            forall|n: int|
                0 <= n < out.len() && j < right.len() ==> place_before(
                    k,
                    #[trigger] out@[n] as int,
                    right@[j as int] as int,
                ),
        decreases left.len() - i + (right.len() - j),
    {
        let ghost before = out@;
        let take_right = if i == left.len() {
            true
        } else if j == right.len() {
            false
        } else {
            text_is_before(&keys[right[j]], &keys[left[i]])
        };
        let place = if take_right {
            right[j]
        } else {
            left[i]
        };
        proof {
            if i < left.len() && j < right.len() {
                let l = left@[i as int] as int;
                let r = right@[j as int] as int;
                assert(k[l] == keys@[l]@);
                assert(k[r] == keys@[r]@);
                lemma_text_before_total(k[l], k[r]);
                assert(l < r);
            }
        }
        out.push(place);
        if take_right {
            j = j + 1;
        } else {
            i = i + 1;
        }
        proof {
            assert forall|n: int| 0 <= n < i implies out@.contains(#[trigger] left@[n]) by {
                if before.contains(left@[n]) {
                    let w = choose|w: int| 0 <= w < before.len() && before[w] == left@[n];
                    assert(out@[w] == left@[n]);
                } else {
                    assert(out@[out.len() - 1] == left@[n]);
                }
            }
            assert forall|n: int| 0 <= n < j implies out@.contains(#[trigger] right@[n]) by {
                if before.contains(right@[n]) {
                    let w = choose|w: int| 0 <= w < before.len() && before[w] == right@[n];
                    assert(out@[w] == right@[n]);
                } else {
                    assert(out@[out.len() - 1] == right@[n]);
                }
            }
            assert forall|a: int, b: int| 0 <= a < b < out.len() implies place_before(
                k,
                #[trigger] out@[a] as int,
                #[trigger] out@[b] as int,
            ) by {
                if b < out.len() - 1 {
                    assert(out@[a] == before[a] && out@[b] == before[b]);
                } else {
                    assert(out@[a] == before[a]);
                }
            }
            assert forall|n: int| 0 <= n < out.len() && i < left.len() implies place_before(
                k,
                #[trigger] out@[n] as int,
                left@[i as int] as int,
            ) by {
                if take_right {
                    if n < out.len() - 1 {
                        assert(out@[n] == before[n]);
                    }
                } else {
                    assert(place_before(k, left@[i - 1] as int, left@[i as int] as int));
                    if n < out.len() - 1 {
                        assert(out@[n] == before[n]);
                        lemma_place_before_transitive(
                            k,
                            out@[n] as int,
                            place as int,
                            left@[i as int] as int,
                        );
                    }
                }
            }
            assert forall|n: int| 0 <= n < out.len() && j < right.len() implies place_before(
                k,
                #[trigger] out@[n] as int,
                right@[j as int] as int,
            ) by {
                if take_right {
                    assert(place_before(k, right@[j - 1] as int, right@[j as int] as int));
                    if n < out.len() - 1 {
                        assert(out@[n] == before[n]);
                        lemma_place_before_transitive(
                            k,
                            out@[n] as int,
                            place as int,
                            right@[j as int] as int,
                        );
                    }
                } else {
                    if n < out.len() - 1 {
                        assert(out@[n] == before[n]);
                    }
                }
            }
        }
    }
    proof {
        assert forall|place: usize| from <= place < to implies #[trigger] out@.contains(place) by {
            if place < mid {
                assert(left@.contains(place));
                let w = choose|w: int| 0 <= w < left@.len() && left@[w] == place;
                assert(out@.contains(left@[w]));
            } else {
                assert(right@.contains(place));
                let w = choose|w: int| 0 <= w < right@.len() && right@[w] == place;
                assert(out@.contains(right@[w]));
            }
        }
    }
    out
}

/// The places from `from` up to `to`, in order.
fn sort_range(keys: &Vec<Vec<char>>, from: usize, to: usize) -> (out: Vec<usize>)
    requires
        from <= to <= keys.len(),
    ensures
        orders(out@, texts(keys@), from as int, to as int),
    decreases to - from,
{
    if to - from == 0 {
        Vec::new()
    } else if to - from == 1 {
        let mut out: Vec<usize> = Vec::new();
        out.push(from);
        assert forall|place: usize| from <= place < to implies #[trigger] out@.contains(place) by {
            assert(out@[0] == place);
        }
        out
    } else {
        let mid = from + (to - from) / 2;
        let left = sort_range(keys, from, mid);
        let right = sort_range(keys, mid, to);
        merge(keys, left, right, from, mid, to)
    }
}

/// The order of the places of `keys`: ascending by key, and by place where
/// the keys are the same.
pub fn sort_order(keys: &Vec<String>) -> (order: Vec<usize>)
    ensures
        is_ordering(order@, keys.deep_view()),
{
    let mut chars: Vec<Vec<char>> = Vec::new();
    let mut i: usize = 0;
    while i < keys.len()
        invariant
            i <= keys.len(),
            chars.len() == i,
            forall|n: int| 0 <= n < i ==> (#[trigger] chars@[n])@ == keys@[n]@,
        decreases keys.len() - i,
    {
        chars.push(chars_of(keys[i].as_str()));
        i = i + 1;
    }
    assert(texts(chars@) =~= keys.deep_view());
    sort_range(&chars, 0, chars.len())
}

/// The names in the order of their keys; names with the same key stay in
/// the order in which they stand in `names`.
pub fn sort_by_keys(names: &Vec<String>, keys: &Vec<String>) -> (sorted: Vec<String>)
    requires
        names.len() == keys.len(),
    ensures
        is_sorted_by(sorted.deep_view(), names.deep_view(), keys.deep_view()),
{
    let order = sort_order(keys);
    let mut sorted: Vec<String> = Vec::new();
    let mut i: usize = 0;
    while i < order.len()
        invariant
            i <= order.len(),
            names.len() == keys.len(),
            is_ordering(order@, keys.deep_view()),
            sorted.len() == i,
            forall|n: int| 0 <= n < i ==> (#[trigger] sorted@[n])@ == names@[order@[n] as int]@,
        decreases order.len() - i,
    {
        assert(order@[i as int] < keys.len());
        sorted.push(names[order[i]].clone());
        i = i + 1;
    }
    assert(sorted.deep_view() =~= arranged(names.deep_view(), order@));
    sorted
}

/// The keys of the names: each name in small letters.
pub fn sort_keys(names: &Vec<String>) -> (keys: Vec<String>)
    ensures
        keys.deep_view() == keys_of(names.deep_view()),
{
    let mut keys: Vec<String> = Vec::new();
    let mut i: usize = 0;
    while i < names.len()
        invariant
            i <= names.len(),
            keys.len() == i,
            forall|n: int| 0 <= n < i ==> (#[trigger] keys@[n])@ == lowercase(names@[n]@),
        decreases names.len() - i,
    {
        keys.push(to_lowercase(names[i].as_str()));
        i = i + 1;
    }
    assert(keys.deep_view() =~= keys_of(names.deep_view()));
    keys
}

/// The names of the entries that have one, in the order of the entries.
pub fn entry_names(entries: Vec<Option<String>>) -> (names: Vec<String>)
    ensures
        names.deep_view() == named(entries.deep_view()),
{
    let ghost all = entries.deep_view();
    let mut names: Vec<String> = Vec::new();
    let mut i: usize = 0;
    proof {
        assert(all.take(0) =~= Seq::empty());
        assert(names.deep_view() =~= Seq::<Seq<char>>::empty());
    }
    while i < entries.len()
        invariant
            i <= entries.len(),
            all == entries.deep_view(),
            names.deep_view() == named(all.take(i as int)),
        decreases entries.len() - i,
    {
        let ghost before = names.deep_view();
        proof {
            assert(all.take(i + 1).drop_last() =~= all.take(i as int));
            assert(all.take(i + 1).last() == entries@[i as int].deep_view());
        }
        match &entries[i] {
            Some(name) => {
                names.push(name.clone());
                assert(names.deep_view() =~= before.push(name@));
            },
            None => {},
        }
        i = i + 1;
    }
    assert(all.take(entries.len() as int) =~= all);
    names
}

/// Lists the entries of a folder by name.
///
/// `listing` is what came of reading the folder: the failure to open it,
/// which is passed on as it is, or its entries, each with its name or with
/// none where the name is no text. Entries without a name are left out. The
/// names are put in the order of their keys, the names in small letters;
/// names with the same key stay in the order of the entries.
pub fn folder_files(listing: Result<Vec<Option<String>>, LoadError>) -> (files: Result<
    Vec<String>,
    LoadError,
>)
    ensures
        match listing {
            Ok(entries) => files is Ok && is_sorted_by(
                files.unwrap().deep_view(),
                named(entries.deep_view()),
                keys_of(named(entries.deep_view())),
            ),
            Err(error) => files is Err && files.unwrap_err() == error,
        },
{
    match listing {
        Ok(entries) => {
            let names = entry_names(entries);
            let keys = sort_keys(&names);
            assert(keys.len() == names.len()) by {
                assert(keys.deep_view().len() == names.deep_view().len());
            }
            Ok(sort_by_keys(&names, &keys))
        },
        Err(error) => Err(error),
    }
}

} // verus!
