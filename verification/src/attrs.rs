//! Attribute mappings: an ordered sequence of unique `key = value` string
//! pairs, together with the builder that deduplicates raw pair lists and the
//! formatter that turns a mapping into the `key="value" ...` text of an open
//! tag.

use vstd::prelude::*;

verus! {

/// The spec-level view of an attribute mapping held as owned string pairs.
pub open spec fn pairs_view(m: Seq<(String, String)>) -> Seq<(Seq<char>, Seq<char>)> {
    Seq::new(m.len(), |i: int| (m[i].0@, m[i].1@))
}

/// The spec-level view of a borrowed pair list, as handed to the builder.
pub open spec fn ref_pairs_view(m: Seq<(&str, &str)>) -> Seq<(Seq<char>, Seq<char>)> {
    Seq::new(m.len(), |i: int| (m[i].0@, m[i].1@))
}

/// Whether some entry of `m` carries the key `k`.
pub open spec fn has_key(m: Seq<(Seq<char>, Seq<char>)>, k: Seq<char>) -> bool {
    exists|i: int| 0 <= i < m.len() && m[i].0 == k
}

/// The index of the first entry of `m` whose key is `k`, or -1 if there is none.
pub open spec fn key_index(m: Seq<(Seq<char>, Seq<char>)>, k: Seq<char>) -> int
    decreases m.len(),
{
    if m.len() == 0 {
        -1
    } else if m[0].0 == k {
        0
    } else if key_index(m.drop_first(), k) == -1 {
        -1
    } else {
        key_index(m.drop_first(), k) + 1
    }
}

/// Insert-or-update: a mapping that already holds `k` keeps its position for it
/// and takes the new value; otherwise the pair is appended.
pub open spec fn upsert(
    m: Seq<(Seq<char>, Seq<char>)>,
    k: Seq<char>,
    v: Seq<char>,
) -> Seq<(Seq<char>, Seq<char>)> {
    if has_key(m, k) {
        m.update(key_index(m, k), (k, v))
    } else {
        m.push((k, v))
    }
}

/// The mapping the builder produces from a raw pair list: pairs applied left to
/// right, last write wins, each key at the position of its first occurrence.
pub open spec fn attrs_model(pairs: Seq<(Seq<char>, Seq<char>)>) -> Seq<(Seq<char>, Seq<char>)>
    decreases pairs.len(),
{
    if pairs.len() == 0 {
        Seq::empty()
    } else {
        upsert(attrs_model(pairs.drop_last()), pairs.last().0, pairs.last().1)
    }
}

/// No two entries of the mapping share a key.
pub open spec fn keys_unique(m: Seq<(Seq<char>, Seq<char>)>) -> bool {
    forall|i: int, j: int| 0 <= i < j < m.len() ==> m[i].0 != m[j].0
}

/// `key_index` finds exactly the first occurrence of a key, and -1 otherwise.
proof fn lemma_key_index(m: Seq<(Seq<char>, Seq<char>)>, k: Seq<char>)
    ensures
        has_key(m, k) ==> {
            &&& 0 <= key_index(m, k) < m.len()
            &&& m[key_index(m, k)].0 == k
            &&& forall|j: int| 0 <= j < key_index(m, k) ==> m[j].0 != k
        },
        !has_key(m, k) ==> key_index(m, k) == -1,
    decreases m.len(),
{
    if m.len() == 0 {
    } else if m[0].0 == k {
    } else {
        lemma_key_index(m.drop_first(), k);
        assert forall|i: int| 0 <= i < m.len() && m[i].0 == k implies has_key(
            m.drop_first(),
            k,
        ) by {
            assert(m.drop_first()[i - 1] == m[i]);
        }
        if has_key(m.drop_first(), k) {
            let r = key_index(m.drop_first(), k);
            assert(m[r + 1] == m.drop_first()[r]);
            assert forall|j: int| 0 <= j < r + 1 implies m[j].0 != k by {
                if j > 0 {
                    assert(m.drop_first()[j - 1] == m[j]);
                }
            }
        }
    }
}

/// If `k` stands at index `i` of `m` and at no earlier index, `key_index` finds `i`.
proof fn lemma_key_index_of_first(m: Seq<(Seq<char>, Seq<char>)>, k: Seq<char>, i: int)
    requires
        0 <= i < m.len(),
        m[i].0 == k,
        forall|j: int| 0 <= j < i ==> m[j].0 != k,
    ensures
        key_index(m, k) == i,
{
    lemma_key_index(m, k);
    let r = key_index(m, k);
    if r < i {
        assert(m[r].0 != k);
    }
    if r > i {
        assert(m[i].0 != k);
    }
}

/// The builder keeps keys unique.
proof fn lemma_upsert_keys_unique(m: Seq<(Seq<char>, Seq<char>)>, k: Seq<char>, v: Seq<char>)
    requires
        keys_unique(m),
    ensures
        keys_unique(upsert(m, k, v)),
{
    lemma_key_index(m, k);
    if has_key(m, k) {
        let r = key_index(m, k);
        let u = m.update(r, (k, v));
        assert forall|i: int, j: int| 0 <= i < j < u.len() implies u[i].0 != u[j].0 by {
            assert(m[i].0 == u[i].0 || (i == r && m[r].0 == k));
            assert(m[j].0 == u[j].0 || (j == r && m[r].0 == k));
        }
    }
}

/// Builds the attribute mapping of an element from an ordered list of raw
/// `(key, value)` pairs. Keys are kept unique: a key that occurs more than
/// once keeps the position of its first occurrence and the value of its last.
pub fn attrs(attributes: Vec<(&str, &str)>) -> (result: Vec<(String, String)>)
    ensures
        pairs_view(result@) == attrs_model(ref_pairs_view(attributes@)),
        keys_unique(pairs_view(result@)),
{
    let mut result: Vec<(String, String)> = Vec::new();
    proof {
        assert(pairs_view(result@) =~= attrs_model(ref_pairs_view(attributes@).take(0)));
    }
    let mut idx: usize = 0;
    while idx < attributes.len()
        invariant
            idx <= attributes.len(),
            pairs_view(result@) == attrs_model(ref_pairs_view(attributes@).take(idx as int)),
            keys_unique(pairs_view(result@)),
        decreases attributes.len() - idx,
    {
        let (key, value) = attributes[idx];
        let key_owned = key.to_owned();
        let ghost m = pairs_view(result@);
        let mut j: usize = 0;
        while j < result.len()
            invariant
                j <= result.len(),
                key_owned@ == key@,
                forall|j0: int| 0 <= j0 < j ==> pairs_view(result@)[j0].0 != key@,
            ensures
                j <= result.len(),
                forall|j0: int| 0 <= j0 < j ==> pairs_view(result@)[j0].0 != key@,
                j < result.len() ==> pairs_view(result@)[j as int].0 == key@,
            decreases result.len() - j,
        {
            let same = result[j].0.eq(&key_owned);
            proof {
                assert(pairs_view(result@)[j as int].0 == result@[j as int].0@);
            }
            if same {
                break ;
            }
            j += 1;
        }
        if j < result.len() {
            proof {
                assert(has_key(m, key@)) by {
                    assert(m[j as int].0 == key@);
                }
                lemma_key_index_of_first(m, key@, j as int);
            }
            result.remove(j);
            result.insert(j, (key.to_owned(), value.to_owned()));
            proof {
                assert(pairs_view(result@) =~~= m.update(j as int, (key@, value@)));
            }
        } else {
            proof {
                assert(!has_key(m, key@));
            }
            result.push((key.to_owned(), value.to_owned()));
            proof {
                assert(pairs_view(result@) =~~= m.push((key@, value@)));
            }
        }
        proof {
            lemma_upsert_keys_unique(m, key@, value@);
            let p = ref_pairs_view(attributes@);
            assert(p.take(idx + 1).drop_last() =~= p.take(idx as int));
            assert(p.take(idx + 1).last() == p[idx as int]);
            assert(pairs_view(result@) =~~= upsert(m, key@, value@));
            assert(pairs_view(result@) =~~= attrs_model(p.take(idx + 1)));
        }
        idx += 1;
    }
    proof {
        assert(ref_pairs_view(attributes@).take(attributes@.len() as int) =~= ref_pairs_view(
            attributes@,
        ));
    }
    result
}

/// The text of one attribute: `key="value"`.
pub open spec fn attr_str(p: (Seq<char>, Seq<char>)) -> Seq<char> {
    p.0 + seq!['=', '"'] + p.1 + seq!['"']
}

/// The text of a whole mapping: its `key="value"` pairs joined by single
/// spaces, with no leading or trailing space.
pub open spec fn attrs_str(m: Seq<(Seq<char>, Seq<char>)>) -> Seq<char>
    decreases m.len(),
{
    if m.len() == 0 {
        Seq::empty()
    } else if m.len() == 1 {
        attr_str(m[0])
    } else {
        attrs_str(m.drop_last()) + seq![' '] + attr_str(m.last())
    }
}

/// Formats an attribute mapping as the space-joined `key="value"` pairs of an
/// open tag. An empty mapping gives the empty string.
pub fn html_attrs_tostr(map: &Vec<(String, String)>) -> (result: String)
    ensures
        result@ == attrs_str(pairs_view(map@)),
{
    let ghost m = pairs_view(map@);
    let mut result = String::new();
    let mut i: usize = 0;
    while i < map.len()
        invariant
            i <= map.len(),
            m == pairs_view(map@),
            result@ == attrs_str(m.take(i as int)),
        decreases map.len() - i,
    {
        if i > 0 {
            result.append(" ");
        }
        result.append(map[i].0.as_str());
        result.append("=\"");
        result.append(map[i].1.as_str());
        result.append("\"");
        proof {
            reveal_strlit(" ");
            reveal_strlit("=\"");
            reveal_strlit("\"");
            assert(" "@ =~= seq![' ']);
            assert("=\""@ =~= seq!['=', '"']);
            assert("\""@ =~= seq!['"']);
            assert(m.take(i + 1).drop_last() =~= m.take(i as int));
            assert(m.take(i + 1)[0] == m[0]);
            assert(result@ =~= attrs_str(m.take(i + 1)));
        }
        i += 1;
    }
    proof {
        assert(m.take(map@.len() as int) =~= m);
    }
    result
}

} // verus!
